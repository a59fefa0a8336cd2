use docgen::directives::parse_for_notation;
use docgen::host::RenderError;
use docgen::value::{boolify_value, stringify_value, Value};

#[test]
fn test_for_notation() {
    let (name, kind, expr) = parse_for_notation("x in abc.foo()").unwrap();
    assert_eq!(name, "x");
    assert_eq!(kind, "in");
    assert_eq!(expr, "abc.foo()");
}

#[test]
fn test_for_of_notation() {
    let (name, kind, expr) = parse_for_notation("x_val of [1,2,3]").unwrap();
    assert_eq!(name, "x_val");
    assert_eq!(kind, "of");
    assert_eq!(expr, "[1,2,3]");
}

#[test]
fn test_each_object_values_notation() {
    let (name, kind, expr) = parse_for_notation("item of Object.entries({ a: 1 })").unwrap();
    assert_eq!(name, "item");
    assert_eq!(kind, "of");
    assert_eq!(expr, "Object.entries({ a: 1 })");
}

#[test]
fn test_bad_notation_is_grammar_error() {
    let r = parse_for_notation("foo bar baz");
    assert!(matches!(r, Err(RenderError::Grammar(_))));
}

#[test]
fn test_empty_notation_is_grammar_error() {
    assert!(matches!(parse_for_notation(""), Err(RenderError::Grammar(_))));
    assert!(matches!(parse_for_notation("of x"), Err(RenderError::Grammar(_))));
    assert!(matches!(parse_for_notation("n ofx"), Err(RenderError::Grammar(_))));
}

#[test]
fn test_stringify_values() {
    assert_eq!(stringify_value(&Value::Int(2)), "2");
    assert_eq!(stringify_value(&Value::Int(-42)), "-42");
    assert_eq!(stringify_value(&Value::Int(0)), "0");
    assert_eq!(stringify_value(&Value::Bool(true)), "true");
    assert_eq!(stringify_value(&Value::Bool(false)), "false");
    assert_eq!(stringify_value(&Value::Null), "null");
    assert_eq!(stringify_value(&Value::Undefined), "undefined");
    assert_eq!(stringify_value(&Value::Str(String::from("ab"))), "ab");
}

#[test]
fn test_truthiness() {
    assert!(!boolify_value(&Value::Int(0)));
    assert!(!boolify_value(&Value::Str(String::new())));
    assert!(!boolify_value(&Value::Str(String::from("  \t "))));
    assert!(!boolify_value(&Value::Str(String::from("\u{0C}\u{0B}"))));
    assert!(!boolify_value(&Value::Str(String::from("\u{A0}\u{2003}"))));
    assert!(!boolify_value(&Value::Null));
    assert!(!boolify_value(&Value::Undefined));
    assert!(!boolify_value(&Value::Bool(false)));
    assert!(boolify_value(&Value::Int(7)));
    assert!(boolify_value(&Value::Int(-1)));
    assert!(boolify_value(&Value::Str(String::from("x"))));
    assert!(boolify_value(&Value::Bool(true)));
    assert!(boolify_value(&Value::Object(String::from("{}"))));
}
