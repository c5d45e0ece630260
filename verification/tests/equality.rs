//! The equality protocol: variant-tagged structural equality, key-order
//! independence for objects, and the filename-only exception for uploads.

use graphql_value::{Number, UploadValue, Value};

fn num(text: &str) -> Value {
    Value::Number(Number::from_text(text.to_string()))
}

#[test]
fn matching_scalar_variants_compare_payload_wise() {
    assert!(Value::Null.eq_value(&Value::Null));
    assert!(Value::Boolean(true).eq_value(&Value::Boolean(true)));
    assert!(!Value::Boolean(true).eq_value(&Value::Boolean(false)));
    assert!(Value::String("a".to_string()).eq_value(&Value::String("a".to_string())));
    assert!(!Value::String("a".to_string()).eq_value(&Value::String("b".to_string())));
    assert!(Value::Enum("A".to_string()).eq_value(&Value::Enum("A".to_string())));
    assert!(Value::Variable("v".to_string()).eq_value(&Value::Variable("v".to_string())));
}

#[test]
fn numbers_compare_by_their_exact_text() {
    assert!(num("1").eq_value(&num("1")));
    assert!(!num("1").eq_value(&num("1.0")));
}

#[test]
fn different_variants_are_never_equal() {
    assert!(!Value::Enum("X".to_string()).eq_value(&Value::String("X".to_string())));
    assert!(!Value::Variable("x".to_string()).eq_value(&Value::String("x".to_string())));
    assert!(!Value::Null.eq_value(&Value::Boolean(false)));
    assert!(!num("1").eq_value(&Value::String("1".to_string())));
}

#[test]
fn lists_compare_pairwise_in_order() {
    let a = Value::List(vec![num("1"), num("2")]);
    let b = Value::List(vec![num("1"), num("2")]);
    let c = Value::List(vec![num("2"), num("1")]);
    let d = Value::List(vec![num("1")]);
    assert!(a.eq_value(&b));
    assert!(!a.eq_value(&c));
    assert!(!a.eq_value(&d));
}

#[test]
fn object_equality_is_key_order_independent() {
    let a = Value::Object(vec![])
        .object_insert("a".to_string(), num("1"))
        .object_insert("b".to_string(), num("2"));
    let b = Value::Object(vec![])
        .object_insert("b".to_string(), num("2"))
        .object_insert("a".to_string(), num("1"));
    assert!(a.eq_value(&b));
    assert!(b.eq_value(&a));
}

#[test]
fn objects_with_different_contents_are_unequal() {
    let a = Value::Object(vec![]).object_insert("a".to_string(), num("1"));
    let b = Value::Object(vec![]).object_insert("a".to_string(), num("2"));
    let c = Value::Object(vec![]).object_insert("c".to_string(), num("1"));
    assert!(!a.eq_value(&b));
    assert!(!a.eq_value(&c));
}

#[test]
fn inserting_an_existing_key_replaces_its_value() {
    let a = Value::Object(vec![])
        .object_insert("a".to_string(), num("1"))
        .object_insert("a".to_string(), num("2"));
    assert_eq!(a.to_text(), "{a: 2}");
}

#[test]
fn uploads_compare_by_filename_only() {
    let a = Value::Upload(UploadValue {
        filename: "f.bin".to_string(),
        content_type: Some("application/octet-stream".to_string()),
    });
    let b = Value::Upload(UploadValue {
        filename: "f.bin".to_string(),
        content_type: None,
    });
    let c = Value::Upload(UploadValue {
        filename: "g.bin".to_string(),
        content_type: Some("application/octet-stream".to_string()),
    });
    assert!(a.eq_value(&b));
    assert!(!a.eq_value(&c));
}

#[test]
fn clones_equal_their_originals() {
    let v = Value::List(vec![
        num("1"),
        Value::Object(vec![]).object_insert("k".to_string(), Value::Boolean(true)),
        Value::String("s".to_string()),
    ]);
    let w = v.clone();
    assert!(v.eq_value(&w));
    assert_eq!(v.to_text(), w.to_text());
}
