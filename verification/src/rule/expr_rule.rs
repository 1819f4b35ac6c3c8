//! Replacement of an expression-shaped macro marker.

use vstd::prelude::*;

use crate::rule::pattern::check_marker;
use crate::rule::pattern::lemma_subst_simple_absent;
use crate::rule::pattern::simple_match_len;
use crate::rule::pattern::subst_simple;
use crate::rule::pattern::subst_simple_exec;
use crate::rule::pattern::valid_marker;
use crate::rule::AnyRule;
use crate::rule::ConversionError;
use crate::rule::IntoRule;
use crate::rule::PatternError;
use crate::rule::Rule;

verus! {

/// The mathematical content of an [`ExprRule`]: the compiled opening token
/// it looks for and the text it puts in a matched marker's place.
pub struct ExprRuleView {
    /// The opening token of the marker: the macro prefix, the marker name
    /// and the separator.
    pub token: Seq<char>,
    /// What every matched marker is replaced with.
    pub replacement: Seq<char>,
}

/// The opening token an [`ExprRule`] searches for.
pub open spec fn expr_token(marker: Seq<char>) -> Seq<char> {
    "replacer::rust_expr!("@ + marker + ";"@
}

/// Replace an expression-shaped macro marker.
///
/// The marker has the form of a macro call carrying the marker name and a
/// placeholder expression: the whole construct is replaced by the rule's
/// replacement text.
pub struct ExprRule {
    /// The opening token of the marker searched for.
    matches: String,
    /// What the marker will be replaced with.
    replace_with: String,
}

impl View for ExprRule {
    type V = ExprRuleView;

    closed spec fn view(&self) -> ExprRuleView {
        ExprRuleView { token: self.matches@, replacement: self.replace_with@ }
    }
}

impl Rule for ExprRule {
    open spec fn spec_convert(&self, template: Seq<char>) -> Result<Seq<char>, ConversionError> {
        Ok(subst_simple(template, self@.token, self@.replacement))
    }

    fn convert(&self, template: &str) -> (r: Result<String, ConversionError>) {
        Ok(subst_simple_exec(template, self.matches.as_str(), self.replace_with.as_str()))
    }
}

impl IntoRule for ExprRule {
    fn into_rule(self) -> (packed: AnyRule) {
        AnyRule::Expr(self)
    }
}

impl ExprRule {
    /// Setup a new rule.
    ///
    /// The marker name is embedded in the compiled pattern, so it must
    /// consist of identifier-safe characters; any other name is rejected
    /// with a [`PatternError`].
    pub fn new(matches: &str, replace_with: &str) -> (r: Result<ExprRule, PatternError>)
        ensures
            valid_marker(matches@) ==> (r matches Ok(rule) && rule@ == (ExprRuleView {
                token: expr_token(matches@),
                replacement: replace_with@,
            })),
            !valid_marker(matches@) ==> (r matches Err(e) && e.marker@ == matches@),
    {
        if !check_marker(matches) {
            return Err(PatternError { marker: String::from_str(matches) });
        }
        Ok(
            ExprRule {
                matches: String::from_str("replacer::rust_expr!(").concat(matches).concat(";"),
                replace_with: String::from_str(replace_with),
            },
        )
    }
}

/// Idempotence of absence: a document in which the rule's marker matches
/// nowhere comes back unchanged.
pub proof fn lemma_expr_rule_absent(rule: ExprRule, doc: Seq<char>)
    requires
        forall|j: int| simple_match_len(doc, rule@.token, j) is None,
    ensures
        rule.spec_convert(doc) == Ok::<Seq<char>, ConversionError>(doc),
{
    lemma_subst_simple_absent(doc, rule@.token, rule@.replacement, 0);
    assert(doc.subrange(0, doc.len() as int) =~= doc);
}

} // verus!
