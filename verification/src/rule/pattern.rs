//! The matching engine shared by the concrete rules.
//!
//! Markers are located by scanning the document left to right: at each
//! position the scanner either recognises a marker, emits the replacement and
//! continues past the matched span, or emits the character unchanged and
//! advances by one. The functions here define that scan mathematically and
//! carry it out on executable strings.
//!
//! The structured matchers emulate grammar awareness with fixed separators
//! and first-occurrence delimiter scanning; they deliberately do not parse
//! the host language, so a payload that itself contains a separator is not
//! recognised. That is a documented limitation, not a defect.

use vstd::prelude::*;

verus! {

/// A character that may appear in a marker name: markers are restricted to
/// identifier-safe characters so that interpolating one into a matcher
/// pattern can never corrupt the pattern.
pub open spec fn is_ident_char(c: char) -> bool {
    ('a' <= c && c <= 'z') || ('A' <= c && c <= 'Z') || ('0' <= c && c <= '9') || c == '_'
}

/// A marker name that can be safely embedded in a matcher pattern.
pub open spec fn valid_marker(m: Seq<char>) -> bool {
    forall|i: int| 0 <= i < m.len() ==> is_ident_char(#[trigger] m[i])
}

/// Check a marker name for identifier-safe characters.
pub fn check_marker(m: &str) -> (ok: bool)
    ensures
        ok == valid_marker(m@),
{
    let n = m.unicode_len();
    let mut i: usize = 0;
    while i < n
        invariant
            n == m@.len(),
            0 <= i <= n,
            forall|j: int| 0 <= j < i ==> is_ident_char(#[trigger] m@[j]),
        decreases n - i,
    {
        let c = m.get_char(i);
        let ok = ('a' <= c && c <= 'z') || ('A' <= c && c <= 'Z') || ('0' <= c && c <= '9') || c
            == '_';
        if !ok {
            return false;
        }
        i = i + 1;
    }
    true
}

/// The pattern `p` occurs in `s` starting at position `i`.
pub open spec fn has_at(s: Seq<char>, p: Seq<char>, i: int) -> bool {
    &&& 0 <= i
    &&& i + p.len() <= s.len()
    &&& s.subrange(i, i + p.len()) == p
}

/// Check whether `p` occurs in `s` at character position `i`.
pub fn has_at_exec(s: &str, p: &str, i: usize) -> (r: bool)
    requires
        i <= s@.len(),
    ensures
        r == has_at(s@, p@, i as int),
{
    let n = s.unicode_len();
    let m = p.unicode_len();
    if m > n - i {
        proof {
            assert(!has_at(s@, p@, i as int));
        }
        return false;
    }
    let mut j: usize = 0;
    while j < m
        invariant
            n == s@.len(),
            m == p@.len(),
            i + m <= n,
            0 <= j <= m,
            forall|k: int| 0 <= k < j ==> s@[i + k] == p@[k],
        decreases m - j,
    {
        if s.get_char(i + j) != p.get_char(j) {
            proof {
                assert(s@.subrange(i as int, i + p@.len())[j as int] != p@[j as int]);
            }
            return false;
        }
        j = j + 1;
    }
    proof {
        assert(s@.subrange(i as int, i + p@.len()) =~= p@);
    }
    true
}

/// The first position `k >= from` with `s[k] == c`, if any.
pub open spec fn find_index(s: Seq<char>, c: char, from: int) -> Option<int>
    decreases s.len() - from,
{
    if from < 0 || from >= s.len() {
        None
    } else if s[from] == c {
        Some(from)
    } else {
        find_index(s, c, from + 1)
    }
}

/// What `find_index` promises: the position found carries `c`, lies in
/// range, and nothing before it does.
pub proof fn lemma_find_index(s: Seq<char>, c: char, from: int)
    requires
        0 <= from <= s.len(),
    ensures
        match find_index(s, c, from) {
            Some(k) => from <= k < s.len() && s[k] == c && forall|j: int|
                from <= j < k ==> s[j] != c,
            None => forall|j: int| from <= j < s.len() ==> s[j] != c,
        },
    decreases s.len() - from,
{
    if from < s.len() && s[from] != c {
        lemma_find_index(s, c, from + 1);
    }
}

/// A literal token match: the non-empty pattern `p` occurs at position `i`.
pub open spec fn literal_match_at(s: Seq<char>, p: Seq<char>, i: int) -> bool {
    p.len() > 0 && has_at(s, p, i)
}

/// The scan for literal substitution, from position `i` on: every
/// non-overlapping occurrence of `p`, found left to right, is replaced by
/// `rep`; every other character is kept.
pub open spec fn replace_from(s: Seq<char>, p: Seq<char>, rep: Seq<char>, i: int) -> Seq<char>
    decreases s.len() - i,
{
    if i < 0 || i >= s.len() {
        Seq::empty()
    } else if literal_match_at(s, p, i) {
        rep + replace_from(s, p, rep, i + p.len() as int)
    } else {
        seq![s[i]] + replace_from(s, p, rep, i + 1)
    }
}

/// What a literal rule does to a whole document: every non-overlapping
/// occurrence of `p` is replaced by `rep`, left to right.
pub open spec fn replace_all(s: Seq<char>, p: Seq<char>, rep: Seq<char>) -> Seq<char> {
    replace_from(s, p, rep, 0)
}

/// Replace every non-overlapping occurrence of `p` in `s` by `rep`, left to
/// right. An empty pattern never matches, so the document comes back
/// unchanged.
pub fn replace_all_exec(s: &str, p: &str, rep: &str) -> (out: String)
    ensures
        out@ == replace_all(s@, p@, rep@),
{
    let n = s.unicode_len();
    let m = p.unicode_len();
    let mut out = String::new();
    let mut run: usize = 0;
    let mut i: usize = 0;
    while i < n
        invariant
            n == s@.len(),
            m == p@.len(),
            0 <= run <= i <= n,
            replace_all(s@, p@, rep@) == out@ + s@.subrange(run as int, i as int) + replace_from(
                s@,
                p@,
                rep@,
                i as int,
            ),
        decreases n - i,
    {
        if m > 0 && has_at_exec(s, p, i) {
            out.append(s.substring_char(run, i));
            out.append(rep);
            proof {
                assert(s@.subrange(i as int, i as int) =~= Seq::<char>::empty());
            }
            i = i + m;
            run = i;
        } else {
            proof {
                assert(s@.subrange(run as int, i as int) + seq![s@[i as int]] =~= s@.subrange(
                    run as int,
                    i + 1,
                ));
            }
            i = i + 1;
        }
    }
    out.append(s.substring_char(run, n));
    proof {
        assert(s@.subrange(n as int, n as int) =~= Seq::<char>::empty());
    }
    out
}

/// Find the first position `k >= from` with `s[k] == c`.
pub fn find_index_exec(s: &str, c: char, from: usize) -> (r: Option<usize>)
    requires
        from <= s@.len(),
    ensures
        match r {
            Some(k) => find_index(s@, c, from as int) == Some(k as int) && from <= k < s@.len(),
            None => find_index(s@, c, from as int) is None,
        },
{
    let n = s.unicode_len();
    let mut i: usize = from;
    while i < n
        invariant
            n == s@.len(),
            from <= i <= n,
            find_index(s@, c, from as int) == find_index(s@, c, i as int),
        decreases n - i,
    {
        if s.get_char(i) == c {
            return Some(i);
        }
        i = i + 1;
    }
    None
}

/// A match of a simple macro-shaped marker at position `i`: the opening
/// token (macro prefix, marker name and separator), then a payload of at
/// least one character that contains no separator, then the separator and
/// the closing parenthesis. `Some(l)` is the length of the whole match.
pub open spec fn simple_match_len(s: Seq<char>, opening: Seq<char>, i: int) -> Option<int> {
    if has_at(s, opening, i) {
        let p = i + opening.len() as int;
        match find_index(s, ';', p) {
            Some(k) => if k > p && k + 1 < s.len() && s[k + 1] == ')' {
                Some(k + 2 - i)
            } else {
                None
            },
            None => None,
        }
    } else {
        None
    }
}

/// The scan for simple macro substitution, from position `i` on: every
/// non-overlapping match of the macro marker, found left to right, is
/// replaced by `rep` whole; every other character is kept.
pub open spec fn subst_simple_from(s: Seq<char>, opening: Seq<char>, rep: Seq<char>, i: int) -> Seq<
    char,
>
    decreases s.len() - i,
{
    if i < 0 || i >= s.len() {
        Seq::empty()
    } else {
        match simple_match_len(s, opening, i) {
            Some(l) => rep + subst_simple_from(s, opening, rep, i + l),
            None => seq![s[i]] + subst_simple_from(s, opening, rep, i + 1),
        }
    }
}

/// What a simple macro rule does to a whole document.
pub open spec fn subst_simple(s: Seq<char>, opening: Seq<char>, rep: Seq<char>) -> Seq<char> {
    subst_simple_from(s, opening, rep, 0)
}

/// Look for a simple macro marker at position `i`; on a match, the length
/// of the matched span.
pub fn simple_match_len_exec(s: &str, opening: &str, i: usize) -> (r: Option<usize>)
    requires
        i <= s@.len(),
    ensures
        match r {
            Some(l) => simple_match_len(s@, opening@, i as int) == Some(l as int) && 1 <= l && i + l
                <= s@.len(),
            None => simple_match_len(s@, opening@, i as int) is None,
        },
{
    if !has_at_exec(s, opening, i) {
        return None;
    }
    let n = s.unicode_len();
    let p = i + opening.unicode_len();
    match find_index_exec(s, ';', p) {
        Some(k) => {
            if k > p && k + 1 < n && s.get_char(k + 1) == ')' {
                Some(k + 2 - i)
            } else {
                None
            }
        },
        None => None,
    }
}

/// Replace every non-overlapping match of a simple macro marker in `s` by
/// `rep`, left to right.
pub fn subst_simple_exec(s: &str, opening: &str, rep: &str) -> (out: String)
    ensures
        out@ == subst_simple(s@, opening@, rep@),
{
    let n = s.unicode_len();
    let mut out = String::new();
    let mut run: usize = 0;
    let mut i: usize = 0;
    while i < n
        invariant
            n == s@.len(),
            0 <= run <= i <= n,
            subst_simple(s@, opening@, rep@) == out@ + s@.subrange(run as int, i as int)
                + subst_simple_from(s@, opening@, rep@, i as int),
        decreases n - i,
    {
        match simple_match_len_exec(s, opening, i) {
            Some(l) => {
                out.append(s.substring_char(run, i));
                out.append(rep);
                proof {
                    assert(s@.subrange(i + l, i + l) =~= Seq::<char>::empty());
                }
                i = i + l;
                run = i;
            },
            None => {
                proof {
                    assert(s@.subrange(run as int, i as int) + seq![s@[i as int]] =~= s@.subrange(
                        run as int,
                        i + 1,
                    ));
                }
                i = i + 1;
            },
        }
    }
    out.append(s.substring_char(run, n));
    proof {
        assert(s@.subrange(n as int, n as int) =~= Seq::<char>::empty());
    }
    out
}

/// A whitespace character, as the struct matcher accepts between the macro
/// prefix and the opening bracket.
pub open spec fn is_space(c: char) -> bool {
    c == ' ' || c == '\t' || c == '\n' || c == '\r' || c == '\u{b}' || c == '\u{c}'
}

/// The first position `k >= i` whose character is not whitespace, or the
/// end of `s`.
pub open spec fn skip_ws(s: Seq<char>, i: int) -> int
    decreases s.len() - i,
{
    if i < 0 || i >= s.len() {
        i
    } else if is_space(s[i]) {
        skip_ws(s, i + 1)
    } else {
        i
    }
}

/// What `skip_ws` promises: it stays in range, skips only whitespace, and
/// stops on the first character that is none.
pub proof fn lemma_skip_ws(s: Seq<char>, i: int)
    requires
        0 <= i <= s.len(),
    ensures
        i <= skip_ws(s, i) <= s.len(),
        skip_ws(s, i) < s.len() ==> !is_space(s[skip_ws(s, i)]),
        forall|j: int| i <= j < skip_ws(s, i) ==> is_space(#[trigger] s[j]),
    decreases s.len() - i,
{
    if i < s.len() && is_space(s[i]) {
        lemma_skip_ws(s, i + 1);
    }
}

/// Skip whitespace from position `from` on.
pub fn skip_ws_exec(s: &str, from: usize) -> (r: usize)
    requires
        from <= s@.len(),
    ensures
        r == skip_ws(s@, from as int),
        from <= r <= s@.len(),
{
    let n = s.unicode_len();
    let mut i: usize = from;
    while i < n
        invariant
            n == s@.len(),
            from <= i <= n,
            skip_ws(s@, from as int) == skip_ws(s@, i as int),
        decreases n - i,
    {
        let c = s.get_char(i);
        if !(c == ' ' || c == '\t' || c == '\n' || c == '\r' || c == '\u{b}' || c == '\u{c}') {
            return i;
        }
        i = i + 1;
    }
    i
}

/// The marker name occurs at position `j` and is followed by the
/// separator.
pub open spec fn marker_semi_at(s: Seq<char>, m: Seq<char>, j: int) -> bool {
    has_at(s, m, j) && j + m.len() < s.len() && s[j + m.len() as int] == ';'
}

/// Check for the marker name followed by the separator at position `j`.
pub fn marker_semi_exec(s: &str, m: &str, j: usize) -> (r: bool)
    requires
        j <= s@.len(),
    ensures
        r == marker_semi_at(s@, m@, j as int),
{
    if !has_at_exec(s, m, j) {
        return false;
    }
    let n = s.unicode_len();
    let e = j + m.unicode_len();
    e < n && s.get_char(e) == ';'
}

/// The macro prefix a struct-shaped marker starts with.
pub open spec fn struct_prefix() -> Seq<char> {
    "replacer::rust_struct!"@
}

/// What a match of a struct-shaped marker carries: the length of the whole
/// matched span, whether a visibility qualifier was captured, and the
/// captured field list.
pub struct StructMatchData {
    /// The length of the matched span.
    pub span: int,
    /// Whether the payload carries a leading visibility qualifier.
    pub is_pub: bool,
    /// The captured field list, copied through to the emitted text.
    pub fields: Seq<char>,
}

/// A match of a struct-shaped marker at position `i`: the macro prefix,
/// optional whitespace, an opening bracket (parenthesis or brace), an
/// optional visibility qualifier, the marker name and separator, a
/// placeholder name of at least one character up to the first opening
/// brace, a field list of at least one character up to the first separator
/// (which must directly follow the closing brace), and the closing bracket
/// matched to the opening one.
pub open spec fn struct_match(s: Seq<char>, marker: Seq<char>, i: int) -> Option<StructMatchData> {
    if !has_at(s, struct_prefix(), i) {
        None
    } else {
        let b = skip_ws(s, i + struct_prefix().len() as int);
        if !(b < s.len() && (s[b] == '(' || s[b] == '{')) {
            None
        } else {
            let closing = if s[b] == '(' {
                ')'
            } else {
                '}'
            };
            let vis = has_at(s, "pub "@, b + 1) && marker_semi_at(
                s,
                marker,
                b + 1 + "pub "@.len() as int,
            );
            let mstart = if vis {
                b + 1 + "pub "@.len() as int
            } else {
                b + 1
            };
            if !marker_semi_at(s, marker, mstart) {
                None
            } else {
                let pstart = mstart + marker.len() as int + 1;
                match find_index(s, '{', pstart) {
                    None => None,
                    Some(ob) => if ob == pstart {
                        None
                    } else {
                        match find_index(s, ';', ob + 1) {
                            None => None,
                            Some(sc) => if sc >= ob + 3 && s[sc - 1] == '}' && sc + 1 < s.len()
                                && s[sc + 1] == closing {
                                Some(
                                    StructMatchData {
                                        span: sc + 2 - i,
                                        is_pub: vis,
                                        fields: s.subrange(ob + 1, sc - 1),
                                    },
                                )
                            } else {
                                None
                            },
                        }
                    },
                }
            }
        }
    }
}

/// A matched struct marker spans at least one character and ends inside the
/// document.
pub proof fn lemma_struct_match_bounds(s: Seq<char>, marker: Seq<char>, i: int)
    ensures
        struct_match(s, marker, i) matches Some(m) ==> 1 <= m.span && i + m.span <= s.len(),
{
    if struct_match(s, marker, i) is Some {
        let b = skip_ws(s, i + struct_prefix().len() as int);
        lemma_skip_ws(s, i + struct_prefix().len() as int);
        let vis = has_at(s, "pub "@, b + 1) && marker_semi_at(
            s,
            marker,
            b + 1 + "pub "@.len() as int,
        );
        let mstart = if vis {
            b + 1 + "pub "@.len() as int
        } else {
            b + 1
        };
        let pstart = mstart + marker.len() as int + 1;
        lemma_find_index(s, '{', pstart);
        let ob = find_index(s, '{', pstart)->Some_0;
        lemma_find_index(s, ';', ob + 1);
    }
}

/// What a matched struct marker is replaced with: the captured visibility
/// qualifier, the struct keyword, the replacement name, and the captured
/// field list in braces.
pub open spec fn struct_emit(m: StructMatchData, rep: Seq<char>) -> Seq<char> {
    (if m.is_pub {
        "pub "@
    } else {
        Seq::<char>::empty()
    }) + "struct "@ + rep + " { "@ + m.fields + " }"@
}

/// The scan for struct macro substitution, from position `i` on.
pub open spec fn subst_struct_from(s: Seq<char>, marker: Seq<char>, rep: Seq<char>, i: int) -> Seq<
    char,
>
    decreases s.len() - i,
    via subst_struct_from_decreases
{
    if i < 0 || i >= s.len() {
        Seq::empty()
    } else {
        match struct_match(s, marker, i) {
            Some(m) => struct_emit(m, rep) + subst_struct_from(s, marker, rep, i + m.span),
            None => seq![s[i]] + subst_struct_from(s, marker, rep, i + 1),
        }
    }
}

#[via_fn]
proof fn subst_struct_from_decreases(s: Seq<char>, marker: Seq<char>, rep: Seq<char>, i: int) {
    lemma_struct_match_bounds(s, marker, i);
}

/// What a struct rule does to a whole document.
pub open spec fn subst_struct(s: Seq<char>, marker: Seq<char>, rep: Seq<char>) -> Seq<char> {
    subst_struct_from(s, marker, rep, 0)
}

/// What `struct_match_exec` hands back on a match: the span and captured
/// pieces, as positions into the document.
pub struct StructMatchSpan {
    /// The length of the matched span.
    pub span: usize,
    /// Whether the payload carries a leading visibility qualifier.
    pub is_pub: bool,
    /// Where the captured field list starts.
    pub fields_from: usize,
    /// Where the captured field list ends.
    pub fields_to: usize,
}

/// Look for a struct-shaped marker at position `i`.
pub fn struct_match_exec(s: &str, marker: &str, i: usize) -> (r: Option<StructMatchSpan>)
    requires
        i <= s@.len(),
    ensures
        match r {
            Some(t) => struct_match(s@, marker@, i as int) matches Some(m) && m.span == t.span
                && m.is_pub == t.is_pub && m.fields == s@.subrange(
                t.fields_from as int,
                t.fields_to as int,
            ) && t.fields_from <= t.fields_to <= s@.len() && 1 <= t.span && i + t.span <= s@.len(),
            None => struct_match(s@, marker@, i as int) is None,
        },
{
    let prefix = "replacer::rust_struct!";
    if !has_at_exec(s, prefix, i) {
        return None;
    }
    let n = s.unicode_len();
    let b = skip_ws_exec(s, i + prefix.unicode_len());
    if b == n {
        return None;
    }
    let cb = s.get_char(b);
    if cb != '(' && cb != '{' {
        return None;
    }
    let closing = if cb == '(' {
        ')'
    } else {
        '}'
    };
    proof {
        reveal_strlit("pub ");
    }
    let vis = has_at_exec(s, "pub ", b + 1) && marker_semi_exec(s, marker, b + 5);
    let mstart = if vis {
        b + 5
    } else {
        b + 1
    };
    if !marker_semi_exec(s, marker, mstart) {
        return None;
    }
    let pstart = mstart + marker.unicode_len() + 1;
    match find_index_exec(s, '{', pstart) {
        None => None,
        Some(ob) => {
            if ob == pstart {
                return None;
            }
            match find_index_exec(s, ';', ob + 1) {
                None => None,
                Some(sc) => {
                    proof {
                        lemma_find_index(s@, ';', ob + 1);
                    }
                    if sc - ob >= 3 && s.get_char(sc - 1) == '}' && sc + 1 < n && s.get_char(sc + 1)
                        == closing {
                        Some(
                            StructMatchSpan {
                                span: sc + 2 - i,
                                is_pub: vis,
                                fields_from: ob + 1,
                                fields_to: sc - 1,
                            },
                        )
                    } else {
                        None
                    }
                },
            }
        },
    }
}

/// Replace every non-overlapping match of a struct-shaped marker in `s`,
/// left to right, re-emitting the captured visibility qualifier and field
/// list around the replacement name.
pub fn subst_struct_exec(s: &str, marker: &str, rep: &str) -> (out: String)
    ensures
        out@ == subst_struct(s@, marker@, rep@),
{
    let n = s.unicode_len();
    let mut out = String::new();
    let mut run: usize = 0;
    let mut i: usize = 0;
    while i < n
        invariant
            n == s@.len(),
            0 <= run <= i <= n,
            subst_struct(s@, marker@, rep@) == out@ + s@.subrange(run as int, i as int)
                + subst_struct_from(s@, marker@, rep@, i as int),
        decreases n - i,
    {
        match struct_match_exec(s, marker, i) {
            Some(t) => {
                out.append(s.substring_char(run, i));
                if t.is_pub {
                    out.append("pub ");
                }
                out.append("struct ");
                out.append(rep);
                out.append(" { ");
                out.append(s.substring_char(t.fields_from, t.fields_to));
                out.append(" }");
                proof {
                    assert(s@.subrange(i + t.span, i + t.span) =~= Seq::<char>::empty());
                }
                i = i + t.span;
                run = i;
            },
            None => {
                proof {
                    assert(s@.subrange(run as int, i as int) + seq![s@[i as int]] =~= s@.subrange(
                        run as int,
                        i + 1,
                    ));
                }
                i = i + 1;
            },
        }
    }
    out.append(s.substring_char(run, n));
    proof {
        assert(s@.subrange(n as int, n as int) =~= Seq::<char>::empty());
    }
    out
}

/// Absence for the literal scan: where the pattern occurs nowhere, the
/// scan emits the document unchanged.
pub proof fn lemma_replace_absent(s: Seq<char>, p: Seq<char>, rep: Seq<char>, i: int)
    requires
        0 <= i <= s.len(),
        forall|j: int| !literal_match_at(s, p, j),
    ensures
        replace_from(s, p, rep, i) == s.subrange(i, s.len() as int),
    decreases s.len() - i,
{
    if i >= s.len() {
        assert(s.subrange(i, s.len() as int) =~= Seq::<char>::empty());
    } else {
        lemma_replace_absent(s, p, rep, i + 1);
        assert(seq![s[i]] + s.subrange(i + 1, s.len() as int) =~= s.subrange(i, s.len() as int));
    }
}

/// The positions at which the literal scan, from position `i` on, finds
/// the pattern: leftmost first, non-overlapping, left to right.
pub open spec fn match_positions_from(s: Seq<char>, p: Seq<char>, i: int) -> Seq<int>
    decreases s.len() - i,
{
    if i < 0 || i >= s.len() {
        Seq::empty()
    } else if literal_match_at(s, p, i) {
        seq![i] + match_positions_from(s, p, i + p.len() as int)
    } else {
        match_positions_from(s, p, i + 1)
    }
}

/// The positions at which a literal rule substitutes in a whole document.
pub open spec fn match_positions(s: Seq<char>, p: Seq<char>) -> Seq<int> {
    match_positions_from(s, p, 0)
}

/// The document from position `i` on, with `rep` spliced in at each listed
/// position in place of `plen` characters.
pub open spec fn splice_at(
    s: Seq<char>,
    ps: Seq<int>,
    plen: int,
    rep: Seq<char>,
    i: int,
) -> Seq<char>
    decreases ps.len(),
{
    if ps.len() == 0 {
        s.subrange(i, s.len() as int)
    } else {
        s.subrange(i, ps[0]) + rep + splice_at(s, ps.drop_first(), plen, rep, ps[0] + plen)
    }
}

/// Every position the scan finds carries a match, comes at or after the
/// scan's start, and consecutive found positions do not overlap.
pub proof fn lemma_match_positions_props(s: Seq<char>, p: Seq<char>, i: int)
    requires
        0 <= i <= s.len(),
        p.len() > 0,
    ensures
        ({
            let ps = match_positions_from(s, p, i);
            &&& forall|k: int|
                0 <= k < ps.len() ==> i <= #[trigger] ps[k] && literal_match_at(s, p, ps[k])
            &&& forall|k: int| 0 <= k < ps.len() - 1 ==> #[trigger] ps[k] + p.len() <= ps[k + 1]
        }),
    decreases s.len() - i,
{
    let ps = match_positions_from(s, p, i);
    if i >= s.len() {
        assert(ps.len() == 0);
    } else if literal_match_at(s, p, i) {
        let tail = match_positions_from(s, p, i + p.len() as int);
        lemma_match_positions_props(s, p, i + p.len() as int);
        assert(ps == seq![i] + tail);
        assert forall|k: int| 0 <= k < ps.len() implies i <= #[trigger] ps[k] && literal_match_at(
            s,
            p,
            ps[k],
        ) by {
            if k == 0 {
                assert(ps[0] == i);
            } else {
                assert(ps[k] == tail[k - 1]);
            }
        }
        assert forall|k: int| 0 <= k < ps.len() - 1 implies #[trigger] ps[k] + p.len() <= ps[k
            + 1] by {
            if k == 0 {
                assert(ps[0] == i);
                assert(ps[1] == tail[0]);
            } else {
                assert(ps[k] == tail[k - 1]);
                assert(ps[k + 1] == tail[k]);
            }
        }
    } else {
        lemma_match_positions_props(s, p, i + 1);
        assert(ps == match_positions_from(s, p, i + 1));
    }
}

/// Every occurrence of the pattern at or after the scan's start lies
/// within one of the spans the scan replaces.
pub proof fn lemma_match_positions_complete(s: Seq<char>, p: Seq<char>, i: int, j: int)
    requires
        0 <= i <= s.len(),
        p.len() > 0,
        i <= j,
        literal_match_at(s, p, j),
    ensures
        ({
            let ps = match_positions_from(s, p, i);
            exists|k: int|
                0 <= k < ps.len() && #[trigger] ps[k] <= j < ps[k] + p.len()
        }),
    decreases s.len() - i,
{
    let ps = match_positions_from(s, p, i);
    if literal_match_at(s, p, i) {
        let tail = match_positions_from(s, p, i + p.len() as int);
        if j < i + p.len() {
            assert(ps[0] == i);
            assert(0 <= 0 < ps.len() && ps[0] <= j < ps[0] + p.len());
        } else {
            lemma_match_positions_complete(s, p, i + p.len() as int, j);
            let k0 = choose|k: int| 0 <= k < tail.len() && #[trigger] tail[k] <= j < tail[k]
                + p.len();
            assert(ps[k0 + 1] == tail[k0]);
            assert(0 <= k0 + 1 < ps.len() && ps[k0 + 1] <= j < ps[k0 + 1] + p.len());
        }
    } else {
        assert(j != i);
        lemma_match_positions_complete(s, p, i + 1, j);
    }
}

/// Prepending one kept character commutes with splicing one position
/// later.
proof fn lemma_splice_prepend(s: Seq<char>, ps: Seq<int>, plen: int, rep: Seq<char>, i: int)
    requires
        0 <= i < s.len(),
        ps.len() > 0 ==> i + 1 <= ps[0] <= s.len(),
    ensures
        seq![s[i]] + splice_at(s, ps, plen, rep, i + 1) == splice_at(s, ps, plen, rep, i),
{
    if ps.len() == 0 {
        assert(seq![s[i]] + s.subrange(i + 1, s.len() as int) =~= s.subrange(i, s.len() as int));
    } else {
        let rest = splice_at(s, ps.drop_first(), plen, rep, ps[0] + plen);
        assert(seq![s[i]] + s.subrange(i + 1, ps[0]) =~= s.subrange(i, ps[0]));
        assert(seq![s[i]] + (s.subrange(i + 1, ps[0]) + rep + rest) =~= (seq![s[i]] + s.subrange(
            i + 1,
            ps[0],
        )) + rep + rest);
    }
}

/// The literal scan is exactly a splice: the output is the document with
/// the replacement put in at each position the scan finds.
pub proof fn lemma_replace_splice(s: Seq<char>, p: Seq<char>, rep: Seq<char>, i: int)
    requires
        0 <= i <= s.len(),
        p.len() > 0,
    ensures
        replace_from(s, p, rep, i) == splice_at(
            s,
            match_positions_from(s, p, i),
            p.len() as int,
            rep,
            i,
        ),
    decreases s.len() - i,
{
    let ps = match_positions_from(s, p, i);
    if i >= s.len() {
        assert(s.subrange(i, s.len() as int) =~= Seq::<char>::empty());
    } else if literal_match_at(s, p, i) {
        lemma_replace_splice(s, p, rep, i + p.len() as int);
        assert(ps.drop_first() =~= match_positions_from(s, p, i + p.len() as int));
        assert(s.subrange(i, i) =~= Seq::<char>::empty());
        assert(Seq::<char>::empty() + rep =~= rep);
        assert(s.subrange(i, ps[0]) + rep + splice_at(
            s,
            ps.drop_first(),
            p.len() as int,
            rep,
            i + p.len() as int,
        ) =~= rep + replace_from(s, p, rep, i + p.len() as int));
    } else {
        lemma_replace_splice(s, p, rep, i + 1);
        assert(ps =~= match_positions_from(s, p, i + 1));
        lemma_match_positions_props(s, p, i + 1);
        if ps.len() > 0 {
            assert(literal_match_at(s, p, ps[0]));
        }
        lemma_splice_prepend(s, ps, p.len() as int, rep, i);
    }
}

/// Absence for the simple macro scan: where the marker matches nowhere,
/// the scan emits the document unchanged.
pub proof fn lemma_subst_simple_absent(s: Seq<char>, opening: Seq<char>, rep: Seq<char>, i: int)
    requires
        0 <= i <= s.len(),
        forall|j: int| simple_match_len(s, opening, j) is None,
    ensures
        subst_simple_from(s, opening, rep, i) == s.subrange(i, s.len() as int),
    decreases s.len() - i,
{
    if i >= s.len() {
        assert(s.subrange(i, s.len() as int) =~= Seq::<char>::empty());
    } else {
        lemma_subst_simple_absent(s, opening, rep, i + 1);
        assert(seq![s[i]] + s.subrange(i + 1, s.len() as int) =~= s.subrange(i, s.len() as int));
    }
}

/// Absence for the struct scan: where the marker matches nowhere, the scan
/// emits the document unchanged.
pub proof fn lemma_subst_struct_absent(s: Seq<char>, marker: Seq<char>, rep: Seq<char>, i: int)
    requires
        0 <= i <= s.len(),
        forall|j: int| struct_match(s, marker, j) is None,
    ensures
        subst_struct_from(s, marker, rep, i) == s.subrange(i, s.len() as int),
    decreases s.len() - i,
{
    if i >= s.len() {
        assert(s.subrange(i, s.len() as int) =~= Seq::<char>::empty());
    } else {
        lemma_subst_struct_absent(s, marker, rep, i + 1);
        assert(seq![s[i]] + s.subrange(i + 1, s.len() as int) =~= s.subrange(i, s.len() as int));
    }
}

} // verus!
