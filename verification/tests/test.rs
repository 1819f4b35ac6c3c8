use replacer::{StringRule, TemplateBuilder, TypeRule};

#[test]
fn test_test_string() {
    let template = TemplateBuilder::new()
        .rule(StringRule::new("replace_with_world", "world").unwrap())
        .build();

    let document = "Hello $$replace_with_world$$!
";
    let expected = "Hello world!
";
    assert_eq!(template.apply(document).unwrap(), expected);
}

#[test]
fn test_test_type() {
    let template = TemplateBuilder::new()
        .rule(TypeRule::new("replace_with_type", "PathBuf").unwrap())
        .rule(TypeRule::new("replace_with_type_in_vec", "String").unwrap())
        .build();

    let document = "fn main() {
    let some_type = <replacer::rust_type!(replace_with_type; String;)>::new();
    let some_generic_type: Vec<replacer::rust_type!(replace_with_type_in_vec; i32;)> = vec![];
    println!(\"{:?} {:?}\", some_type, some_generic_type);
}
";
    let expected = "fn main() {
    let some_type = <PathBuf>::new();
    let some_generic_type: Vec<String> = vec![];
    println!(\"{:?} {:?}\", some_type, some_generic_type);
}
";
    assert_eq!(template.apply(document).unwrap(), expected);
}
