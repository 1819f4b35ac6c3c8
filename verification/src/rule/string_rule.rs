//! Replacement of a literal marker token.

use vstd::prelude::*;

use crate::rule::pattern::has_at;
use crate::rule::pattern::lemma_match_positions_complete;
use crate::rule::pattern::lemma_match_positions_props;
use crate::rule::pattern::lemma_replace_absent;
use crate::rule::pattern::lemma_replace_splice;
use crate::rule::pattern::literal_match_at;
use crate::rule::pattern::match_positions;
use crate::rule::pattern::replace_all;
use crate::rule::pattern::replace_all_exec;
use crate::rule::pattern::splice_at;
use crate::rule::AnyRule;
use crate::rule::ConversionError;
use crate::rule::IntoRule;
use crate::rule::PatternError;
use crate::rule::Rule;

verus! {

/// The mathematical content of a [`StringRule`]: the exact token it looks
/// for and the text it puts in the token's place.
pub struct StringRuleView {
    /// The literal token searched for: the marker name wrapped in the
    /// delimiter pair.
    pub token: Seq<char>,
    /// What every occurrence of the token is replaced with.
    pub replacement: Seq<char>,
}

/// Replace a string inside another string.
///
/// This rule looks for the marker name wrapped in a doubled-dollar
/// delimiter pair and substitutes the replacement text for every
/// occurrence.
pub struct StringRule {
    /// The token that will be matched: the marker wrapped in delimiters.
    matches: String,
    /// What the token will be replaced with.
    replace_with: String,
}

impl View for StringRule {
    type V = StringRuleView;

    closed spec fn view(&self) -> StringRuleView {
        StringRuleView { token: self.matches@, replacement: self.replace_with@ }
    }
}

/// The literal token a [`StringRule`] searches for: the marker name wrapped
/// in the doubled-dollar delimiter pair.
pub open spec fn literal_token(marker: Seq<char>) -> Seq<char> {
    "$$"@ + marker + "$$"@
}

impl Rule for StringRule {
    open spec fn spec_convert(&self, template: Seq<char>) -> Result<Seq<char>, ConversionError> {
        Ok(replace_all(template, self@.token, self@.replacement))
    }

    fn convert(&self, template: &str) -> (r: Result<String, ConversionError>) {
        Ok(replace_all_exec(template, self.matches.as_str(), self.replace_with.as_str()))
    }
}

impl IntoRule for StringRule {
    fn into_rule(self) -> (packed: AnyRule) {
        AnyRule::Literal(self)
    }
}

impl StringRule {
    /// Setup a new rule.
    ///
    /// Construction never fails: no pattern is compiled, the marker name is
    /// only wrapped in the literal delimiter pair.
    pub fn new(matches: &str, replace_with: &str) -> (r: Result<StringRule, PatternError>)
        ensures
            r matches Ok(rule) && rule@ == (StringRuleView {
                token: literal_token(matches@),
                replacement: replace_with@,
            }),
    {
        Ok(
            StringRule {
                matches: String::from_str("$$").concat(matches).concat("$$"),
                replace_with: String::from_str(replace_with),
            },
        )
    }
}

/// Idempotence of absence: a document in which the rule's token occurs
/// nowhere comes back unchanged.
pub proof fn lemma_string_rule_absent(rule: StringRule, doc: Seq<char>)
    requires
        forall|j: int| !literal_match_at(doc, rule@.token, j),
    ensures
        rule.spec_convert(doc) == Ok::<Seq<char>, ConversionError>(doc),
{
    lemma_replace_absent(doc, rule@.token, rule@.replacement, 0);
    assert(doc.subrange(0, doc.len() as int) =~= doc);
}

/// Literal substitution totality: the output is the document with the
/// replacement spliced in at exactly the positions the scan finds. Each
/// found position carries the token, consecutive found positions do not
/// overlap, and every occurrence of the token lies inside one of the
/// replaced spans — so every occurrence is substituted, however many there
/// are, at the position where it stood.
pub proof fn lemma_string_rule_totality(rule: StringRule, doc: Seq<char>)
    requires
        rule@.token.len() > 0,
    ensures
        ({
            let ps = match_positions(doc, rule@.token);
            &&& rule.spec_convert(doc) == Ok::<Seq<char>, ConversionError>(
                splice_at(doc, ps, rule@.token.len() as int, rule@.replacement, 0),
            )
            &&& forall|k: int| 0 <= k < ps.len() ==> has_at(doc, rule@.token, #[trigger] ps[k])
            &&& forall|k: int|
                0 <= k < ps.len() - 1 ==> #[trigger] ps[k] + rule@.token.len() <= ps[k + 1]
            &&& forall|j: int|
                has_at(doc, rule@.token, j) ==> exists|k: int|
                    0 <= k < ps.len() && #[trigger] ps[k] <= j < ps[k] + rule@.token.len()
        }),
{
    let ps = match_positions(doc, rule@.token);
    lemma_replace_splice(doc, rule@.token, rule@.replacement, 0);
    lemma_match_positions_props(doc, rule@.token, 0);
    assert forall|j: int| has_at(doc, rule@.token, j) implies exists|k: int|
        0 <= k < ps.len() && #[trigger] ps[k] <= j < ps[k] + rule@.token.len() by {
        lemma_match_positions_complete(doc, rule@.token, 0, j);
    }
}

} // verus!
