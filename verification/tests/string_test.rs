use replacer::{StringRule, TemplateBuilder};

use replacer::rule::Rule;

#[test]
fn string_rule() {
    assert_eq!(
        StringRule::new("replace", "world")
            .unwrap()
            .convert("Hello $$replace$$!")
            .unwrap(),
        "Hello world!"
    );
    assert_eq!(
        StringRule::new("replace", "world")
            .unwrap()
            .convert("Hello world!")
            .unwrap(),
        "Hello world!"
    );
    assert_eq!(
        StringRule::new("replace", "world")
            .unwrap()
            .convert("Hello $$replace$$, bye $$replace$$!")
            .unwrap(),
        "Hello world, bye world!"
    );
}

#[test]
fn string_test_test_string() {
    let template = TemplateBuilder::new()
        .rule(StringRule::new("replace_with_world", "world").unwrap())
        .build();

    let document = "Hello $$replace_with_world$$!
// Also works in comments, hello $$replace_with_world$$
";
    let expected = "Hello world!
// Also works in comments, hello world
";
    assert_eq!(template.apply(document).unwrap(), expected);
}

#[test]
fn string_rule_empty_document() {
    assert_eq!(
        StringRule::new("replace", "world").unwrap().convert("").unwrap(),
        ""
    );
}

#[test]
fn string_rule_adjacent_occurrences() {
    assert_eq!(
        StringRule::new("m", "x").unwrap().convert("$$m$$$$m$$").unwrap(),
        "xx"
    );
}

#[test]
fn string_rule_token_at_edges() {
    assert_eq!(
        StringRule::new("m", "left").unwrap().convert("$$m$$ middle $$m$$").unwrap(),
        "left middle left"
    );
}

#[test]
fn string_rule_empty_replacement() {
    assert_eq!(
        StringRule::new("gone", "").unwrap().convert("a$$gone$$b").unwrap(),
        "ab"
    );
}

#[test]
fn string_rule_never_fails_on_odd_marker() {
    // No pattern is compiled, so even a bracketed marker is accepted.
    let rule = StringRule::new("we[ird", "x").unwrap();
    assert_eq!(rule.convert("a $$we[ird$$ b").unwrap(), "a x b");
}
