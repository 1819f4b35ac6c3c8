//! Replacement of a struct-shaped macro marker.

use vstd::prelude::*;

use crate::rule::pattern::check_marker;
use crate::rule::pattern::lemma_subst_struct_absent;
use crate::rule::pattern::struct_match;
use crate::rule::pattern::subst_struct;
use crate::rule::pattern::subst_struct_exec;
use crate::rule::pattern::valid_marker;
use crate::rule::AnyRule;
use crate::rule::ConversionError;
use crate::rule::IntoRule;
use crate::rule::PatternError;
use crate::rule::Rule;

verus! {

/// The mathematical content of a [`StructRule`]: the marker name compiled
/// into its pattern and the name put in a matched placeholder's place.
pub struct StructRuleView {
    /// The marker name searched for inside the macro-shaped placeholder.
    pub marker: Seq<char>,
    /// The name that replaces the placeholder name.
    pub replacement: Seq<char>,
}

/// Replace a Rust struct.
///
/// The marker has the form of a macro call carrying an optional visibility
/// qualifier, the marker name, and a placeholder struct with a field list.
/// The whole construct is replaced by a struct declaration that keeps the
/// captured visibility qualifier and field list and swaps the placeholder
/// name for the rule's replacement text.
pub struct StructRule {
    /// The marker name compiled into the pattern.
    matches: String,
    /// What the placeholder name will be replaced with.
    replace_with: String,
}

impl View for StructRule {
    type V = StructRuleView;

    closed spec fn view(&self) -> StructRuleView {
        StructRuleView { marker: self.matches@, replacement: self.replace_with@ }
    }
}

impl Rule for StructRule {
    open spec fn spec_convert(&self, template: Seq<char>) -> Result<Seq<char>, ConversionError> {
        Ok(subst_struct(template, self@.marker, self@.replacement))
    }

    fn convert(&self, template: &str) -> (r: Result<String, ConversionError>) {
        Ok(subst_struct_exec(template, self.matches.as_str(), self.replace_with.as_str()))
    }
}

impl IntoRule for StructRule {
    fn into_rule(self) -> (packed: AnyRule) {
        AnyRule::Struct(self)
    }
}

impl StructRule {
    /// Setup a new rule.
    ///
    /// The marker name is embedded in the compiled pattern, so it must
    /// consist of identifier-safe characters; any other name is rejected
    /// with a [`PatternError`].
    pub fn new(matches: &str, replace_with: &str) -> (r: Result<StructRule, PatternError>)
        ensures
            valid_marker(matches@) ==> (r matches Ok(rule) && rule@ == (StructRuleView {
                marker: matches@,
                replacement: replace_with@,
            })),
            !valid_marker(matches@) ==> (r matches Err(e) && e.marker@ == matches@),
    {
        if !check_marker(matches) {
            return Err(PatternError { marker: String::from_str(matches) });
        }
        Ok(
            StructRule {
                matches: String::from_str(matches),
                replace_with: String::from_str(replace_with),
            },
        )
    }
}

/// Idempotence of absence: a document in which the rule's marker matches
/// nowhere comes back unchanged.
pub proof fn lemma_struct_rule_absent(rule: StructRule, doc: Seq<char>)
    requires
        forall|j: int| struct_match(doc, rule@.marker, j) is None,
    ensures
        rule.spec_convert(doc) == Ok::<Seq<char>, ConversionError>(doc),
{
    lemma_subst_struct_absent(doc, rule@.marker, rule@.replacement, 0);
    assert(doc.subrange(0, doc.len() as int) =~= doc);
}

} // verus!
