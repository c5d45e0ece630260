//! The key order behind object fields: code-point lexicographic
//! comparison and the sorted insertion it drives.

use graphql_value::order::{str_compare, KeyOrder};
use graphql_value::{Number, Value};

fn num(text: &str) -> Value {
    Value::Number(Number::from_text(text.to_string()))
}

#[test]
fn compares_strings_by_code_point() {
    assert!(matches!(str_compare("a", "b"), KeyOrder::Less));
    assert!(matches!(str_compare("b", "a"), KeyOrder::Greater));
    assert!(matches!(str_compare("same", "same"), KeyOrder::Equal));
    assert!(matches!(str_compare("", "a"), KeyOrder::Less));
    assert!(matches!(str_compare("a", "ab"), KeyOrder::Less));
    assert!(matches!(str_compare("ab", "b"), KeyOrder::Less));
    assert!(matches!(str_compare("z", "\u{e9}"), KeyOrder::Less));
}

#[test]
fn object_fields_sort_with_prefixes_and_multibyte_keys() {
    let v = Value::Object(vec![])
        .object_insert("b".to_string(), num("1"))
        .object_insert("ab".to_string(), num("2"))
        .object_insert("\u{e9}".to_string(), num("3"))
        .object_insert("a".to_string(), num("4"));
    assert_eq!(v.to_text(), "{a: 4, ab: 2, b: 1, \u{e9}: 3}");
}

#[test]
fn three_insertion_orders_build_the_same_object() {
    let keys = ["k1", "k2", "k3"];
    let build = |order: [usize; 3]| {
        let mut v = Value::Object(vec![]);
        for i in order {
            v = v.object_insert(keys[i].to_string(), num(&format!("{}", i)));
        }
        v
    };
    let a = build([0, 1, 2]);
    let b = build([2, 1, 0]);
    let c = build([1, 0, 2]);
    assert!(a.eq_value(&b));
    assert!(a.eq_value(&c));
    assert_eq!(a.to_text(), b.to_text());
    assert_eq!(a.to_text(), c.to_text());
    assert_eq!(a.to_text(), "{k1: 0, k2: 1, k3: 2}");
}
