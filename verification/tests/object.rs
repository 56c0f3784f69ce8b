use lico::object::ustring::UString;
use lico::object::{arity_matches, Object};

#[test]
fn object_truthiness() {
    assert!(!Object::Nil.is_truthy());
    assert!(!Object::Bool(false).is_truthy());
    assert!(Object::Bool(true).is_truthy());
    assert!(Object::Int(0).is_truthy());
    assert!(Object::Float(0).is_truthy());
    assert!(Object::String(UString::from("")).is_truthy());
    assert!(Object::Array.is_truthy());
    assert!(Object::Nil.is_falsey());
    assert!(!Object::Table.is_falsey());
}

#[test]
fn object_kind_names() {
    assert_eq!(Object::Int(1).kind_name(), "int");
    assert_eq!(Object::Float(0).kind_name(), "float");
    assert_eq!(Object::Bool(true).kind_name(), "bool");
    assert_eq!(Object::Nil.kind_name(), "nil");
    assert_eq!(Object::String(UString::from("a")).kind_name(), "string");
    assert_eq!(Object::Array.kind_name(), "array");
    assert_eq!(Object::Table.kind_name(), "table");
    assert_eq!(Object::Function.kind_name(), "function");
    assert_eq!(Object::RustFunction(1).kind_name(), "function");
}

#[test]
fn native_function_arity() {
    assert!(arity_matches(1, 1));
    assert!(!arity_matches(1, 0));
    assert!(!arity_matches(1, 2));
    assert!(arity_matches(0, 0));
}
