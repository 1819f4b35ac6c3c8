use replacer::{StructRule, TemplateBuilder, TypeRule};

use replacer::rule::Rule;

#[test]
fn struct_rule() {
    assert_eq!(
        StructRule::new("replace", "Point2D")
            .unwrap()
            .convert("replacer::rust_struct! {replace; Point { x: i32, y: i32};}")
            .unwrap(),
        "struct Point2D {  x: i32, y: i32 }"
    );
    assert_eq!(
        StructRule::new("replace", "Point2D")
            .unwrap()
            .convert("replacer::rust_struct! {pub replace; Point{ x: i32, y: i32};}")
            .unwrap(),
        "pub struct Point2D {  x: i32, y: i32 }"
    );
    assert_eq!(
        StructRule::new("replace", "i32")
            .unwrap()
            .convert("Hello world!")
            .unwrap(),
        "Hello world!"
    );
}

#[test]
fn test_struct() {
    let template = TemplateBuilder::new()
        .rule(StructRule::new("point", "Point2D").unwrap())
        .rule(TypeRule::new("point", "Point2D").unwrap())
        .rule(StructRule::new("rectangle", "Rectangle<'a>").unwrap())
        .rule(TypeRule::new("rectangle", "Rectangle").unwrap())
        .rule(TypeRule::new("rectangle_lifetime", "Rectangle<'a>").unwrap())
        .build();

    let document = "#[rustfmt::skip]
replacer::rust_struct!{point; Point{ x: i32, y: i32};}

impl replacer::rust_type!(point; Point;) {
    pub fn new() -> Self {
        Self { x: 10, y: 20 }
    }
}

#[rustfmt::skip]
replacer::rust_struct!{pub rectangle; Square{ pos: replacer::rust_type!(point; Point;), size: replacer::rust_type!(point; Point;)};}

impl replacer::rust_type!(rectangle; Square;) {
    pub fn new() -> Self {
        Self {
            pos: <replacer::rust_type!(point; Point;)>::new(),
            size: <replacer::rust_type!(point; Point;)>::new(),
        }
    }
}

fn main() {
    let shape = <replacer::rust_type!(rectangle; Square;)>::new();
    println!(
        \"({}, {}, {}, {})\",
        shape.pos.x, shape.pos.y, shape.size.x, shape.size.y
    );
}
";
    let expected = "#[rustfmt::skip]
struct Point2D {  x: i32, y: i32 }

impl Point2D {
    pub fn new() -> Self {
        Self { x: 10, y: 20 }
    }
}

#[rustfmt::skip]
pub struct Rectangle<'a> {  pos: Point2D, size: Point2D }

impl Rectangle {
    pub fn new() -> Self {
        Self {
            pos: <Point2D>::new(),
            size: <Point2D>::new(),
        }
    }
}

fn main() {
    let shape = <Rectangle>::new();
    println!(
        \"({}, {}, {}, {})\",
        shape.pos.x, shape.pos.y, shape.size.x, shape.size.y
    );
}
";
    assert_eq!(template.apply(document).unwrap(), expected);
}

#[test]
fn struct_round_trip() {
    // The field segment is copied through verbatim; only the placeholder
    // name is swapped.
    let rule = StructRule::new("marker", "Point2D").unwrap();
    assert_eq!(
        rule.convert("replacer::rust_struct!(marker; Placeholder{x: i32, y: i32};)")
            .unwrap(),
        "struct Point2D { x: i32, y: i32 }"
    );
}

#[test]
fn struct_visibility_preserved() {
    // A captured visibility qualifier is re-emitted, not dropped.
    let rule = StructRule::new("marker", "Point2D").unwrap();
    assert_eq!(
        rule.convert("replacer::rust_struct!(pub marker; Placeholder{x: i32};)")
            .unwrap(),
        "pub struct Point2D { x: i32 }"
    );
}

#[test]
fn struct_brace_bracket_style() {
    // Both bracketing styles are accepted, each with its own closing
    // delimiter.
    let rule = StructRule::new("m", "P").unwrap();
    assert_eq!(
        rule.convert("replacer::rust_struct!{m; Q{a: u8};}").unwrap(),
        "struct P { a: u8 }"
    );
    assert_eq!(
        rule.convert("replacer::rust_struct!(m; Q{a: u8};)").unwrap(),
        "struct P { a: u8 }"
    );
}

#[test]
fn struct_mismatched_brackets_not_matched() {
    // The closing delimiter must correspond to the opening one.
    let rule = StructRule::new("m", "P").unwrap();
    assert_eq!(
        rule.convert("replacer::rust_struct!(m; Q{a: u8};}").unwrap(),
        "replacer::rust_struct!(m; Q{a: u8};}"
    );
}

#[test]
fn struct_lifetime_placeholder() {
    // A placeholder with a lifetime parameter still matches: the segment
    // before the field braces is opaque to the matcher.
    let rule = StructRule::new("m", "Holder<'a>").unwrap();
    assert_eq!(
        rule.convert("replacer::rust_struct!(m; P<'a>{r: &'a u8};)").unwrap(),
        "struct Holder<'a> { r: &'a u8 }"
    );
}

#[test]
fn struct_whitespace_before_bracket() {
    // Any run of whitespace may stand between the macro bang and the
    // opening bracket.
    let rule = StructRule::new("m", "P").unwrap();
    assert_eq!(
        rule.convert("replacer::rust_struct!\n\t (m; Q{a: u8};)").unwrap(),
        "struct P { a: u8 }"
    );
}

#[test]
fn struct_pattern_error() {
    match StructRule::new("mark{er", "P") {
        Ok(_) => panic!("a marker name with a brace must be rejected"),
        Err(e) => assert_eq!(e.marker, "mark{er"),
    }
}
