//! The rule abstraction: a pure document-to-document conversion keyed on a
//! marker, plus the concrete rules that locate placeholder markers and
//! substitute them.

use vstd::prelude::*;

pub mod expr_rule;
pub mod pattern;
pub mod string_rule;
pub mod struct_rule;
pub mod type_rule;

pub use expr_rule::ExprRule;
pub use string_rule::StringRule;
pub use struct_rule::StructRule;
pub use type_rule::TypeRule;

verus! {

/// Error raised at rule construction when a marker name cannot be safely
/// embedded in a matcher pattern.
#[derive(Debug)]
pub struct PatternError {
    /// The marker name that was rejected.
    pub marker: String,
}

/// Error raised by a rule's `convert` when matching or substitution fails.
///
/// None of the rules in this crate ever produce one, but the [`Rule`]
/// capability allows a custom rule to fail.
#[derive(Debug)]
pub struct ConversionError {
    /// A description of the failure.
    pub message: String,
}

/// Generic way to add rules for a single file.
///
/// This trait can be implemented on a struct or enum for custom template
/// handling. A rule must be a pure function of its own immutable state and
/// the input text.
pub trait Rule {
    /// The mathematical description of what this rule does to a document.
    spec fn spec_convert(&self, template: Seq<char>) -> Result<Seq<char>, ConversionError>;

    /// Convert the matched values to a string.
    fn convert(&self, template: &str) -> (r: Result<String, ConversionError>)
        ensures
            match r {
                Ok(out) => self.spec_convert(template@) matches Ok(s) && s == out@,
                Err(e) => self.spec_convert(template@) matches Err(e2) && e2 == e,
            },
    ;
}

/// A rule that can package itself for a [`crate::TemplateBuilder`].
///
/// The rules of this crate wrap themselves in their own [`AnyRule`]
/// variant, which keeps their exact behaviour visible to the verifier. A
/// custom implementation of [`Rule`] is added to a template as
/// `AnyRule::Custom(Box::new(rule))`, which already satisfies this trait.
pub trait IntoRule: Rule + core::marker::Sized {
    /// Package this rule so a template can hold it.
    fn into_rule(self) -> (packed: AnyRule)
        ensures
            forall|d: Seq<char>| #[trigger] packed.spec_convert(d) == self.spec_convert(d),
    ;
}

/// One rule held by a [`crate::Template`]: one of the rules of this crate,
/// carried directly, or any other implementation of the [`Rule`] capability,
/// owned and dispatched dynamically.
pub enum AnyRule {
    /// A [`StringRule`]: replaces every occurrence of a literal token.
    Literal(StringRule),
    /// A [`TypeRule`]: replaces a type-shaped macro marker.
    Type(TypeRule),
    /// A [`StructRule`]: replaces a struct-shaped macro marker.
    Struct(StructRule),
    /// An [`ExprRule`]: replaces an expression-shaped macro marker.
    Expr(ExprRule),
    /// Any other implementation of the [`Rule`] capability.
    Custom(Box<dyn Rule>),
}

impl Rule for AnyRule {
    open spec fn spec_convert(&self, template: Seq<char>) -> Result<Seq<char>, ConversionError> {
        match self {
            AnyRule::Literal(r) => r.spec_convert(template),
            AnyRule::Type(r) => r.spec_convert(template),
            AnyRule::Struct(r) => r.spec_convert(template),
            AnyRule::Expr(r) => r.spec_convert(template),
            AnyRule::Custom(r) => r.spec_convert(template),
        }
    }

    fn convert(&self, template: &str) -> (r: Result<String, ConversionError>) {
        match self {
            AnyRule::Literal(r) => r.convert(template),
            AnyRule::Type(r) => r.convert(template),
            AnyRule::Struct(r) => r.convert(template),
            AnyRule::Expr(r) => r.convert(template),
            AnyRule::Custom(r) => r.convert(template),
        }
    }
}

impl IntoRule for AnyRule {
    fn into_rule(self) -> (packed: AnyRule) {
        self
    }
}

} // verus!
