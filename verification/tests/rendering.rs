//! Rendering: GraphQL literal syntax, including the exact character-level
//! escaping rules.

use graphql_value::{Number, UploadValue, Value};

fn num(text: &str) -> Value {
    Value::Number(Number::from_text(text.to_string()))
}

#[test]
fn renders_null_and_booleans() {
    assert_eq!(Value::Null.to_text(), "null");
    assert_eq!(Value::Boolean(true).to_text(), "true");
    assert_eq!(Value::Boolean(false).to_text(), "false");
}

#[test]
fn renders_variable_with_dollar_and_enum_bare() {
    assert_eq!(Value::Variable("x".to_string()).to_text(), "$x");
    assert_eq!(Value::Enum("ACTIVE".to_string()).to_text(), "ACTIVE");
}

#[test]
fn renders_numbers_exactly_as_their_text() {
    assert_eq!(num("1").to_text(), "1");
    assert_eq!(num("1.0").to_text(), "1.0");
    assert_eq!(num("-2.5e10").to_text(), "-2.5e10");
    assert_eq!(
        num("123456789012345678901234567890").to_text(),
        "123456789012345678901234567890"
    );
}

#[test]
fn renders_empty_list_and_empty_object() {
    assert_eq!(Value::List(vec![]).to_text(), "[]");
    assert_eq!(Value::Object(vec![]).to_text(), "{}");
}

#[test]
fn renders_list_elements_joined_by_comma_space() {
    let v = Value::List(vec![num("1"), num("2"), Value::Boolean(true)]);
    assert_eq!(v.to_text(), "[1, 2, true]");
}

#[test]
fn renders_object_fields_in_sorted_key_order() {
    let v = Value::Object(vec![])
        .object_insert("b".to_string(), num("2"))
        .object_insert("a".to_string(), num("1"));
    assert_eq!(v.to_text(), "{a: 1, b: 2}");

    let w = Value::Object(vec![])
        .object_insert("a".to_string(), num("1"))
        .object_insert("b".to_string(), num("2"));
    assert_eq!(w.to_text(), "{a: 1, b: 2}");
}

#[test]
fn quote_and_backslash_pass_through_unescaped() {
    assert_eq!(Value::String("a\"b".to_string()).to_text(), "\"a\"b\"");
    assert_eq!(Value::String("a\\b".to_string()).to_text(), "\"a\\b\"");
}

#[test]
fn carriage_return_newline_tab_emitted_literally() {
    let v = Value::String("a\r\nb\tc".to_string());
    assert_eq!(v.to_text(), "\"a\r\nb\tc\"");
}

#[test]
fn control_characters_use_decimal_four_digit_field() {
    assert_eq!(Value::String("\u{1}".to_string()).to_text(), "\"\\u0001\"");
    assert_eq!(Value::String("\u{1f}".to_string()).to_text(), "\"\\u0031\"");
}

#[test]
fn bmp_characters_pass_through_and_astral_use_decimal_escape() {
    assert_eq!(
        Value::String("\u{ffff}".to_string()).to_text(),
        "\"\u{ffff}\""
    );
    // U+10000 is 65536 and U+1F600 is 128512 in decimal.
    assert_eq!(
        Value::String("\u{10000}".to_string()).to_text(),
        "\"\\u65536\""
    );
    assert_eq!(
        Value::String("\u{1F600}".to_string()).to_text(),
        "\"\\u128512\""
    );
}

#[test]
fn upload_renders_as_null() {
    let v = Value::Upload(UploadValue {
        filename: "a.png".to_string(),
        content_type: Some("image/png".to_string()),
    });
    assert_eq!(v.to_text(), "null");
}

#[test]
fn renders_nested_structures() {
    let inner = Value::Object(vec![])
        .object_insert("k".to_string(), Value::String("v".to_string()));
    let v = Value::List(vec![Value::Null, inner]);
    assert_eq!(v.to_text(), "[null, {k: \"v\"}]");
}

#[test]
fn default_value_is_null() {
    let v: Value = Default::default();
    assert_eq!(v.to_text(), "null");
}
