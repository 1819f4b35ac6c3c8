use replacer::{ExprRule, TemplateBuilder};

use replacer::rule::Rule;

#[test]
fn expr_rule() {
    assert_eq!(
        ExprRule::new("replace", "1 + 1")
            .unwrap()
            .convert("println!(\"{}\", replacer::rust_expr!(replace; true;));")
            .unwrap(),
        "println!(\"{}\", 1 + 1);"
    );
    assert_eq!(
        ExprRule::new("replace", "1 + 1")
            .unwrap()
            .convert("Hello world!")
            .unwrap(),
        "Hello world!"
    );
}

#[test]
fn test_expr() {
    let template = TemplateBuilder::new()
        .rule(ExprRule::new("replace_with_expression", "1 + 1").unwrap())
        .build();

    let document = "fn main() {
    println!(\"{}\", replacer::rust_expr!(replace_with_expression; true;));
}
";
    let expected = "fn main() {
    println!(\"{}\", 1 + 1);
}
";
    assert_eq!(template.apply(document).unwrap(), expected);
}

#[test]
fn expr_pattern_error() {
    match ExprRule::new("mark(er", "1 + 1") {
        Ok(_) => panic!("a marker name with a parenthesis must be rejected"),
        Err(e) => assert_eq!(e.marker, "mark(er"),
    }
}
