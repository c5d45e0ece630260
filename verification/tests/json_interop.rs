//! The JSON interop protocol: the lossy two-way mapping and which values
//! survive the round trip.

use graphql_value::{JsonValue, Number, UploadValue, Value};

fn num(text: &str) -> Value {
    Value::Number(Number::from_text(text.to_string()))
}

#[test]
fn plain_values_round_trip_under_equality() {
    let v = Value::Object(vec![])
        .object_insert("n".to_string(), num("1.5"))
        .object_insert("s".to_string(), Value::String("text".to_string()))
        .object_insert("b".to_string(), Value::Boolean(false))
        .object_insert("z".to_string(), Value::Null)
        .object_insert(
            "l".to_string(),
            Value::List(vec![num("1"), Value::String("two".to_string())]),
        );
    let back = Value::from_json(&v.to_json());
    assert!(v.eq_value(&back));
    assert!(back.eq_value(&v));
}

#[test]
fn empty_containers_round_trip() {
    let l = Value::List(vec![]);
    assert!(l.eq_value(&Value::from_json(&l.to_json())));
    let o = Value::Object(vec![]);
    assert!(o.eq_value(&Value::from_json(&o.to_json())));
}

#[test]
fn enum_degrades_to_string_and_does_not_round_trip() {
    let v = Value::Enum("X".to_string());
    let j = v.to_json();
    assert!(matches!(&j, JsonValue::String(s) if s == "X"));
    let back = Value::from_json(&j);
    assert!(matches!(&back, Value::String(s) if s == "X"));
    assert!(!v.eq_value(&back));
}

#[test]
fn variable_drops_its_marker_and_does_not_round_trip() {
    let v = Value::Variable("x".to_string());
    let j = v.to_json();
    assert!(matches!(&j, JsonValue::String(s) if s == "x"));
    let back = Value::from_json(&j);
    assert!(matches!(&back, Value::String(s) if s == "x"));
    assert!(!v.eq_value(&back));
}

#[test]
fn upload_converts_to_json_null() {
    let v = Value::Upload(UploadValue {
        filename: "a.png".to_string(),
        content_type: None,
    });
    assert!(matches!(v.to_json(), JsonValue::Null));
}

#[test]
fn json_nodes_map_onto_their_value_variants() {
    assert!(matches!(Value::from_json(&JsonValue::Null), Value::Null));
    assert!(matches!(
        Value::from_json(&JsonValue::Bool(true)),
        Value::Boolean(true)
    ));
    let n = Value::from_json(&JsonValue::Number(Number::from_text("7".to_string())));
    assert!(matches!(&n, Value::Number(m) if m.repr == "7"));
    let arr = JsonValue::Array(vec![JsonValue::Null, JsonValue::Bool(false)]);
    let l = Value::from_json(&arr);
    assert_eq!(l.to_text(), "[null, false]");
}

#[test]
fn json_object_keys_carry_through_unchanged() {
    let j = JsonValue::Object(vec![
        ("a".to_string(), JsonValue::Bool(true)),
        ("b".to_string(), JsonValue::Null),
    ]);
    let v = Value::from_json(&j);
    assert_eq!(v.to_text(), "{a: true, b: null}");
}
