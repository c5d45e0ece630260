//! The JSON interop protocol: a generic JSON tree and the two independent,
//! deliberately non-inverse conversions between it and `Value`. Going to
//! JSON drops the `$` marker of a variable, the enum-ness of an enum name
//! and the whole content of an upload; coming back, strings are only ever
//! plain strings. Both directions are total. The conversions between this
//! tree and a concrete JSON library's own type are plain transport glue and
//! live outside this crate.

use vstd::prelude::*;
use crate::fields::sorted_keys;
use crate::value::{Value, Number, eq_val, value_sorted};

verus! {

/// A generic JSON tree: null, boolean, number, string, array, object.
/// Object fields are kept sorted by key, exactly as `Value::Object`'s are.
#[derive(Debug)]
pub enum JsonValue {
    Null,
    Bool(bool),
    Number(Number),
    String(String),
    Array(Vec<JsonValue>),
    Object(Vec<(String, JsonValue)>),
}

/// The Value-to-JSON direction: `j` is what `v` converts to. `Null` and
/// `Upload` both go to JSON null; `Variable` and `Enum` both go to a plain
/// JSON string of their bare name, losing the distinction; lists, objects
/// and the rest carry over entry by entry.
pub open spec fn json_of(v: Value, j: JsonValue) -> bool
    decreases v,
{
    match v {
        Value::Null => j is Null,
        Value::Variable(name) => j matches JsonValue::String(t) && t@ == name@,
        Value::Number(n) => j matches JsonValue::Number(m) && m.repr@ == n.repr@,
        Value::String(s) => j matches JsonValue::String(t) && t@ == s@,
        Value::Boolean(b) => j matches JsonValue::Bool(c) && c == b,
        Value::Enum(e) => j matches JsonValue::String(t) && t@ == e@,
        Value::List(items) => j matches JsonValue::Array(js) && js@.len() == items@.len() && (
        forall|i: int| 0 <= i < items@.len() ==> json_of(items@[i], js@[i])),
        Value::Object(fields) => j matches JsonValue::Object(jf) && jf@.len() == fields@.len()
            && (forall|i: int|
            0 <= i < fields@.len() ==> jf@[i].0@ == fields@[i].0@ && json_of(
                fields@[i].1,
                jf@[i].1,
            )),
        Value::Upload(u) => j is Null,
    }
}

/// The JSON-to-Value direction: `v` is what `j` converts to. Every JSON
/// string becomes a `String` — never a `Variable` or an `Enum`, whose
/// distinctions cannot be recovered; keys carry through unchanged.
pub open spec fn value_of(j: JsonValue, v: Value) -> bool
    decreases j,
{
    match j {
        JsonValue::Null => v is Null,
        JsonValue::Bool(b) => v matches Value::Boolean(c) && c == b,
        JsonValue::Number(m) => v matches Value::Number(n) && n.repr@ == m.repr@,
        JsonValue::String(t) => v matches Value::String(s) && s@ == t@,
        JsonValue::Array(js) => v matches Value::List(items) && items@.len() == js@.len() && (
        forall|i: int| 0 <= i < js@.len() ==> value_of(js@[i], items@[i])),
        JsonValue::Object(jf) => v matches Value::Object(fields) && fields@.len() == jf@.len()
            && (forall|i: int|
            0 <= i < jf@.len() ==> fields@[i].0@ == jf@[i].0@ && value_of(
                jf@[i].1,
                fields@[i].1,
            )),
    }
}

/// Built from `Null`, `Number`, `String`, `Boolean`, `List` and `Object`
/// alone: the variants whose JSON conversion loses nothing.
pub open spec fn plain(v: Value) -> bool
    decreases v,
{
    match v {
        Value::Null => true,
        Value::Number(n) => true,
        Value::String(s) => true,
        Value::Boolean(b) => true,
        Value::List(items) => forall|i: int| 0 <= i < items@.len() ==> plain(items@[i]),
        Value::Object(fields) => forall|i: int| 0 <= i < fields@.len() ==> plain(fields@[i].1),
        _ => false,
    }
}

impl Value {
    /// Converts to a JSON tree. Total: every variant has a defined, if
    /// lossy, mapping.
    pub fn to_json(&self) -> (r: JsonValue)
        ensures
            json_of(*self, r),
        decreases *self,
    {
        match self {
            Value::Null => JsonValue::Null,
            Value::Variable(name) => JsonValue::String(name.clone()),
            Value::Number(n) => JsonValue::Number(n.clone()),
            Value::String(s) => JsonValue::String(s.clone()),
            Value::Boolean(b) => JsonValue::Bool(*b),
            Value::Enum(e) => JsonValue::String(e.clone()),
            Value::List(items) => {
                let n: usize = items.len();
                let mut out: Vec<JsonValue> = Vec::new();
                let mut i: usize = 0;
                while i < n
                    invariant
                        i <= n,
                        n == items@.len(),
                        out@.len() == i,
                        self == Value::List(*items),
                        forall|k: int| 0 <= k < i ==> json_of(items@[k], out@[k]),
                    decreases n - i,
                {
                    proof {
                        assert((*self)->List_0 == *items);
                        assert(decreases_to!(*self => (*self)->List_0));
                        assert(decreases_to!(*items => items@));
                        assert(decreases_to!(items@ => items@[i as int]));
                    }
                    out.push(items[i].to_json());
                    i = i + 1;
                }
                JsonValue::Array(out)
            }
            Value::Object(fields) => {
                let n: usize = fields.len();
                let mut out: Vec<(String, JsonValue)> = Vec::new();
                let mut i: usize = 0;
                while i < n
                    invariant
                        i <= n,
                        n == fields@.len(),
                        out@.len() == i,
                        self == Value::Object(*fields),
                        forall|k: int| 0 <= k < i ==> out@[k].0@ == fields@[k].0@ && json_of(
                            fields@[k].1,
                            out@[k].1,
                        ),
                    decreases n - i,
                {
                    proof {
                        assert((*self)->Object_0 == *fields);
                        assert(decreases_to!(*self => (*self)->Object_0));
                        assert(decreases_to!(*fields => fields@));
                        assert(decreases_to!(fields@ => fields@[i as int]));
                        assert(decreases_to!(fields@[i as int] => fields@[i as int].1));
                    }
                    out.push((fields[i].0.clone(), fields[i].1.to_json()));
                    i = i + 1;
                }
                JsonValue::Object(out)
            }
            Value::Upload(u) => JsonValue::Null,
        }
    }

    /// Converts a JSON tree to a value. Total: every JSON node has a
    /// defined mapping, and no validation is performed.
    pub fn from_json(j: &JsonValue) -> (r: Value)
        ensures
            value_of(*j, r),
        decreases *j,
    {
        match j {
            JsonValue::Null => Value::Null,
            JsonValue::Bool(b) => Value::Boolean(*b),
            JsonValue::Number(m) => Value::Number(m.clone()),
            JsonValue::String(t) => Value::String(t.clone()),
            JsonValue::Array(js) => {
                let n: usize = js.len();
                let mut out: Vec<Value> = Vec::new();
                let mut i: usize = 0;
                while i < n
                    invariant
                        i <= n,
                        n == js@.len(),
                        out@.len() == i,
                        j == JsonValue::Array(*js),
                        forall|k: int| 0 <= k < i ==> value_of(js@[k], out@[k]),
                    decreases n - i,
                {
                    proof {
                        assert((*j)->Array_0 == *js);
                        assert(decreases_to!(*j => (*j)->Array_0));
                        assert(decreases_to!(*js => js@));
                        assert(decreases_to!(js@ => js@[i as int]));
                    }
                    out.push(Value::from_json(&js[i]));
                    i = i + 1;
                }
                Value::List(out)
            }
            JsonValue::Object(jf) => {
                let n: usize = jf.len();
                let mut out: Vec<(String, Value)> = Vec::new();
                let mut i: usize = 0;
                while i < n
                    invariant
                        i <= n,
                        n == jf@.len(),
                        out@.len() == i,
                        j == JsonValue::Object(*jf),
                        forall|k: int| 0 <= k < i ==> out@[k].0@ == jf@[k].0@ && value_of(
                            jf@[k].1,
                            out@[k].1,
                        ),
                    decreases n - i,
                {
                    proof {
                        assert((*j)->Object_0 == *jf);
                        assert(decreases_to!(*j => (*j)->Object_0));
                        assert(decreases_to!(*jf => jf@));
                        assert(decreases_to!(jf@ => jf@[i as int]));
                        assert(decreases_to!(jf@[i as int] => jf@[i as int].1));
                    }
                    out.push((jf[i].0.clone(), Value::from_json(&jf[i].1)));
                    i = i + 1;
                }
                Value::Object(out)
            }
        }
    }
}

/// Every object anywhere inside `j` keeps its fields sorted by key, the
/// same invariant as `value_sorted`. A tree read from a sorted-map JSON
/// library satisfies it by construction.
pub open spec fn json_sorted(j: JsonValue) -> bool
    decreases j,
{
    match j {
        JsonValue::Array(items) => forall|i: int| 0 <= i < items@.len() ==> json_sorted(
            items@[i],
        ),
        JsonValue::Object(fields) => sorted_keys(fields@) && (forall|i: int|
            0 <= i < fields@.len() ==> json_sorted(fields@[i].1)),
        _ => true,
    }
}

/// Converting to JSON observes the model's key order: a value whose
/// objects are sorted converts to a tree whose objects are sorted, key
/// for key in the same order.
pub proof fn lemma_to_json_preserves_sorted(v: Value, j: JsonValue)
    requires
        json_of(v, j),
        value_sorted(v),
    ensures
        json_sorted(j),
    decreases v,
{
    match v {
        Value::List(items) => {
            let js = j->Array_0;
            assert forall|i: int| 0 <= i < js@.len() implies json_sorted(js@[i]) by {
                assert(decreases_to!(v => v->List_0));
                assert(json_of(items@[i], js@[i]));
                lemma_to_json_preserves_sorted(items@[i], js@[i]);
            }
        }
        Value::Object(fields) => {
            let jf = j->Object_0;
            assert forall|i: int| 0 <= i < jf@.len() implies json_sorted(jf@[i].1) by {
                assert(decreases_to!(v => v->Object_0));
                assert(json_of(fields@[i].1, jf@[i].1));
                lemma_to_json_preserves_sorted(fields@[i].1, jf@[i].1);
            }
            assert(sorted_keys(jf@));
        }
        _ => {}
    }
}

/// Converting from JSON observes the tree's key order the same way: a
/// sorted tree yields a value whose objects are sorted.
pub proof fn lemma_from_json_preserves_sorted(j: JsonValue, v: Value)
    requires
        value_of(j, v),
        json_sorted(j),
    ensures
        value_sorted(v),
    decreases j,
{
    match j {
        JsonValue::Array(js) => {
            let items = v->List_0;
            assert forall|i: int| 0 <= i < items@.len() implies value_sorted(items@[i]) by {
                assert(decreases_to!(j => j->Array_0));
                assert(value_of(js@[i], items@[i]));
                lemma_from_json_preserves_sorted(js@[i], items@[i]);
            }
        }
        JsonValue::Object(jf) => {
            let fields = v->Object_0;
            assert forall|i: int| 0 <= i < fields@.len() implies value_sorted(fields@[i].1) by {
                assert(decreases_to!(j => j->Object_0));
                assert(value_of(jf@[i].1, fields@[i].1));
                lemma_from_json_preserves_sorted(jf@[i].1, fields@[i].1);
            }
            assert(sorted_keys(fields@));
        }
        _ => {}
    }
}

/// The JSON round trip preserves values built from `Number`, `String`,
/// `Boolean`, `Null`, `List` and `Object` of those alone: converting such
/// a value to JSON and back yields an equal value under the equality
/// protocol. (For `Variable`, `Enum` and `Upload` the trip is lossy by
/// design: they degrade to a plain string or to null and stay there.)
pub proof fn lemma_json_round_trip(v: Value, j: JsonValue, r: Value)
    requires
        plain(v),
        json_of(v, j),
        value_of(j, r),
    ensures
        eq_val(v, r),
    decreases v,
{
    match v {
        Value::List(items) => {
            let js = j->Array_0;
            let out = r->List_0;
            assert forall|i: int| 0 <= i < items@.len() implies eq_val(items@[i], out@[i]) by {
                assert(decreases_to!(v => v->List_0));
                assert(json_of(items@[i], js@[i]));
                assert(value_of(js@[i], out@[i]));
                lemma_json_round_trip(items@[i], js@[i], out@[i]);
            }
        }
        Value::Object(fields) => {
            let jf = j->Object_0;
            let out = r->Object_0;
            assert forall|i: int| 0 <= i < fields@.len() implies fields@[i].0@ == out@[i].0@
                && eq_val(fields@[i].1, out@[i].1) by {
                assert(decreases_to!(v => v->Object_0));
                assert(json_of(fields@[i].1, jf@[i].1));
                assert(value_of(jf@[i].1, out@[i].1));
                lemma_json_round_trip(fields@[i].1, jf@[i].1, out@[i].1);
            }
        }
        _ => {}
    }
}

} // verus!
