//! A rule-based text-substitution engine for rewriting template source
//! files: documents that stay syntactically valid in their host language
//! while carrying placeholder markers that rules replace with
//! caller-supplied text.
//!
//! A caller builds a [`Template`] from an ordered list of rules with
//! [`TemplateBuilder`], then applies it to a document. The document is
//! threaded through every rule in order, and the first rule that fails ends
//! the run with its error.

use vstd::prelude::*;

pub mod rule;

use rule::AnyRule;
use rule::ConversionError;
use rule::IntoRule;
use rule::Rule;

pub use rule::expr_rule::ExprRule;
pub use rule::string_rule::StringRule;
pub use rule::struct_rule::StructRule;
pub use rule::type_rule::TypeRule;

verus! {

/// What applying a sequence of rules to a document yields: the document is
/// threaded through every rule in order, and the first failure ends the
/// fold with that rule's error, the later rules never contributing.
pub open spec fn apply_rules(rules: Seq<AnyRule>, doc: Seq<char>) -> Result<
    Seq<char>,
    ConversionError,
>
    decreases rules.len(),
{
    if rules.len() == 0 {
        Ok(doc)
    } else {
        match rules[0].spec_convert(doc) {
            Ok(next) => apply_rules(rules.drop_first(), next),
            Err(e) => Err(e),
        }
    }
}

/// Sequential composition: applying the rules `a + b` is applying `a`
/// first, and on success handing its output to `b`. Together with the
/// order that [`TemplateBuilder::rule`] guarantees, this pins the
/// execution order down to exactly the declared one: rules whose markers
/// overlap textually may give different results in different orders.
pub proof fn lemma_apply_rules_append(a: Seq<AnyRule>, b: Seq<AnyRule>, doc: Seq<char>)
    ensures
        apply_rules(a + b, doc) == (match apply_rules(a, doc) {
            Ok(mid) => apply_rules(b, mid),
            Err(e) => Err(e),
        }),
    decreases a.len(),
{
    if a.len() == 0 {
        assert(a + b =~= b);
    } else {
        assert((a + b).drop_first() =~= a.drop_first() + b);
        match a[0].spec_convert(doc) {
            Ok(next) => {
                lemma_apply_rules_append(a.drop_first(), b, next);
            },
            Err(e) => {},
        }
    }
}

/// Fail-fast propagation: if the rules before position `i` turn the
/// document into `mid` and rule `i` fails on `mid` with `e`, the whole
/// application fails with exactly `e` — the rules after `i` contribute
/// nothing.
pub proof fn lemma_apply_rules_fail_fast(
    rules: Seq<AnyRule>,
    doc: Seq<char>,
    i: int,
    mid: Seq<char>,
    e: ConversionError,
)
    requires
        0 <= i < rules.len(),
        apply_rules(rules.take(i), doc) == Ok::<Seq<char>, ConversionError>(mid),
        rules[i].spec_convert(mid) == Err::<Seq<char>, ConversionError>(e),
    ensures
        apply_rules(rules, doc) == Err::<Seq<char>, ConversionError>(e),
{
    assert(rules =~= rules.take(i) + (seq![rules[i]] + rules.skip(i + 1)));
    lemma_apply_rules_append(rules.take(i), seq![rules[i]] + rules.skip(i + 1), doc);
    assert((seq![rules[i]] + rules.skip(i + 1))[0] == rules[i]);
}

/// Builder for the [`Template`] struct.
pub struct TemplateBuilder {
    rules: Vec<AnyRule>,
}

impl View for TemplateBuilder {
    type V = Seq<AnyRule>;

    closed spec fn view(&self) -> Seq<AnyRule> {
        self.rules@
    }
}

impl Default for TemplateBuilder {
    fn default() -> (b: TemplateBuilder)
        ensures
            b@.len() == 0,
    {
        TemplateBuilder::new()
    }
}

impl TemplateBuilder {
    /// Start building a new [`Template`] struct.
    pub fn new() -> (b: TemplateBuilder)
        ensures
            b@.len() == 0,
    {
        TemplateBuilder { rules: Vec::new() }
    }

    /// Add a new rule that can be applied in batch.
    ///
    /// A rule is defined by anything that implements the [`rule::Rule`]
    /// trait. Rules run in exactly the order they are added.
    pub fn rule<R: IntoRule + 'static>(self, r: R) -> (b: TemplateBuilder)
        ensures
            b@.len() == self@.len() + 1,
            forall|i: int| 0 <= i < self@.len() ==> b@[i] == self@[i],
            forall|d: Seq<char>| #[trigger] b@.last().spec_convert(d) == r.spec_convert(d),
    {
        let mut rules = self.rules;
        rules.push(r.into_rule());
        TemplateBuilder { rules }
    }

    /// Create the [`Template`] struct.
    pub fn build(self) -> (t: Template)
        ensures
            t@ == self@,
    {
        Template { rules: self.rules }
    }
}

/// An ordered, immutable list of rules bound to one document-rewriting
/// session.
///
/// Use [`TemplateBuilder`] to instantiate a new Template.
pub struct Template {
    rules: Vec<AnyRule>,
}

impl View for Template {
    type V = Seq<AnyRule>;

    closed spec fn view(&self) -> Seq<AnyRule> {
        self.rules@
    }
}

impl Template {
    /// Apply all rules sequentially or return the first error.
    pub fn apply(&self, code: &str) -> (r: Result<String, ConversionError>)
        ensures
            match r {
                Ok(out) => apply_rules(self@, code@) matches Ok(s) && s == out@,
                Err(e) => apply_rules(self@, code@) matches Err(e2) && e2 == e,
            },
    {
        let mut current = String::from_str(code);
        let n = self.rules.len();
        proof {
            assert(self.rules@.skip(0) =~= self.rules@);
        }
        let mut i: usize = 0;
        while i < n
            invariant
                n == self.rules@.len(),
                0 <= i <= n,
                apply_rules(self.rules@, code@) == apply_rules(
                    self.rules@.skip(i as int),
                    current@,
                ),
            decreases n - i,
        {
            proof {
                assert(self.rules@.skip(i as int).drop_first() =~= self.rules@.skip(i + 1));
            }
            let converted = self.rules[i].convert(current.as_str());
            match converted {
                Ok(next) => {
                    current = next;
                },
                Err(e) => {
                    return Err(e);
                },
            }
            i = i + 1;
        }
        proof {
            assert(self.rules@.skip(n as int).len() == 0);
        }
        Ok(current)
    }
}

} // verus!
