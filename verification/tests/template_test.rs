use std::cell::RefCell;
use std::rc::Rc;

use replacer::rule::{AnyRule, ConversionError, Rule};
use replacer::{StringRule, TemplateBuilder};

#[test]
fn empty_template_keeps_document() {
    let template = TemplateBuilder::new().build();
    assert_eq!(template.apply("untouched $$text$$").unwrap(), "untouched $$text$$");
}

#[test]
fn order_sensitivity() {
    // Two rules whose markers overlap textually: the first rule's
    // replacement contains the second rule's marker, so the declared order
    // decides the outcome.
    let forward = TemplateBuilder::new()
        .rule(StringRule::new("m", "$$n$$").unwrap())
        .rule(StringRule::new("n", "X").unwrap())
        .build();
    let backward = TemplateBuilder::new()
        .rule(StringRule::new("n", "X").unwrap())
        .rule(StringRule::new("m", "$$n$$").unwrap())
        .build();

    assert_eq!(forward.apply("$$m$$").unwrap(), "X");
    assert_eq!(backward.apply("$$m$$").unwrap(), "$$n$$");
}

struct FailingRule;

impl Rule for FailingRule {
    // The ghost description of the rule is never evaluated at run time.
    fn spec_convert(
        &self,
        _template: vstd::seq::Seq<char>,
    ) -> Result<vstd::seq::Seq<char>, ConversionError> {
        unreachable!()
    }

    fn convert(&self, _template: &str) -> Result<String, ConversionError> {
        Err(ConversionError {
            message: String::from("broken rule"),
        })
    }
}

struct CountingRule {
    hits: Rc<RefCell<u32>>,
}

impl Rule for CountingRule {
    // The ghost description of the rule is never evaluated at run time.
    fn spec_convert(
        &self,
        _template: vstd::seq::Seq<char>,
    ) -> Result<vstd::seq::Seq<char>, ConversionError> {
        unreachable!()
    }

    fn convert(&self, template: &str) -> Result<String, ConversionError> {
        *self.hits.borrow_mut() += 1;
        Ok(template.to_string())
    }
}

#[test]
fn fail_fast_propagation() {
    // The failing rule's error comes back exactly, and the rules after it
    // are never invoked.
    let hits = Rc::new(RefCell::new(0u32));
    let template = TemplateBuilder::new()
        .rule(StringRule::new("a", "b").unwrap())
        .rule(AnyRule::Custom(Box::new(FailingRule)))
        .rule(AnyRule::Custom(Box::new(CountingRule {
            hits: hits.clone(),
        })))
        .build();

    match template.apply("$$a$$") {
        Ok(_) => panic!("the failing rule must end the run"),
        Err(e) => assert_eq!(e.message, "broken rule"),
    }
    assert_eq!(*hits.borrow(), 0);
}

#[test]
fn custom_rule_runs_in_sequence() {
    let counted = Rc::new(RefCell::new(0u32));
    let template = TemplateBuilder::new()
        .rule(StringRule::new("who", "custom").unwrap())
        .rule(AnyRule::Custom(Box::new(CountingRule {
            hits: counted.clone(),
        })))
        .build();

    assert_eq!(template.apply("hello $$who$$").unwrap(), "hello custom");
    assert_eq!(*counted.borrow(), 1);
}

#[test]
fn builder_keeps_declaration_order() {
    // Later rules see the text earlier rules produced.
    let template = TemplateBuilder::new()
        .rule(StringRule::new("one", "$$two$$").unwrap())
        .rule(StringRule::new("two", "$$three$$").unwrap())
        .rule(StringRule::new("three", "done").unwrap())
        .build();
    assert_eq!(template.apply("$$one$$").unwrap(), "done");
}
