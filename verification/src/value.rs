//! The GraphQL value model: a closed variant set, structural equality with
//! a documented filename-only exception for uploads, and exact rendering as
//! GraphQL literal syntax.

use vstd::prelude::*;
use vstd::string::StrSliceExecFns;
use crate::fields::{
    spec_insert_field, insert_field, sorted_keys, lemma_insert_field_sorted, has_key,
    lemma_sorted_fields_canonical,
};
use crate::text::{quoted, write_quoted};

verus! {

/// A numeric literal, stored as its exact source text (for example `1`,
/// `-2.5`, `1e10`). Text-backed storage keeps the distinction between
/// integer and floating forms, holds values outside 64-bit range, and makes
/// the textual round trip exact. Two numbers are equal exactly when their
/// texts are equal, so `1` and `1.0` differ.
#[derive(Debug)]
pub struct Number {
    pub repr: String,
}

impl Clone for Number {
    fn clone(&self) -> (r: Self)
        ensures
            r.repr@ == self.repr@,
    {
        Number { repr: self.repr.clone() }
    }
}

impl Number {
    /// Wraps the exact text of a numeric literal. No validation happens
    /// here: checking that the text is a well-formed literal is the
    /// parser's responsibility.
    pub fn from_text(text: String) -> (r: Number)
        ensures
            r.repr@ == text@,
    {
        Number { repr: text }
    }
}

/// The metadata of a file upload attached to an operation: the content
/// itself is an external resource handled at the transport boundary, and
/// never takes part in equality, rendering or JSON conversion.
#[derive(Debug)]
pub struct UploadValue {
    pub filename: String,
    pub content_type: Option<String>,
}

impl Clone for UploadValue {
    fn clone(&self) -> (r: Self)
        ensures
            r.filename@ == self.filename@,
            r.content_type is Some <==> self.content_type is Some,
            self.content_type matches Some(ct) ==> (r.content_type matches Some(rct) && rct@
                == ct@),
    {
        let content_type = match &self.content_type {
            Some(ct) => Some(ct.clone()),
            None => None,
        };
        UploadValue { filename: self.filename.clone(), content_type }
    }
}

/// Represents a GraphQL value.
///
/// `Object` fields are kept sorted by key (see `crate::fields`), so that
/// equality, rendering and JSON conversion all observe the same
/// deterministic key order; build objects with [`Value::object_insert`].
#[derive(Debug)]
pub enum Value {
    Null,
    Variable(String),
    Number(Number),
    String(String),
    Boolean(bool),
    Enum(String),
    List(Vec<Value>),
    Object(Vec<(String, Value)>),
    Upload(UploadValue),
}

/// Every object anywhere inside `v` keeps its fields sorted by key: the
/// invariant under which key order is deterministic for every reader.
/// Values built through [`Value::object_insert`] and the JSON conversions
/// preserve it.
pub open spec fn value_sorted(v: Value) -> bool
    decreases v,
{
    match v {
        Value::List(items) => forall|i: int| 0 <= i < items@.len() ==> value_sorted(items@[i]),
        Value::Object(fields) => sorted_keys(fields@) && (forall|i: int|
            0 <= i < fields@.len() ==> value_sorted(fields@[i].1)),
        _ => true,
    }
}

/// The equality protocol: variant-tagged structural equality.
///
/// Matching variants compare payload-wise; lists pairwise in order; objects
/// field-by-field (with fields kept sorted, this is the same as comparing
/// by key lookup, and is key-order-independent — see
/// `lemma_object_key_order_independent`). Two uploads are equal exactly
/// when their filenames are equal, whatever their content or content type:
/// content streams cannot be compared without consuming them, and callers
/// rely on this deliberately weakened contract. Different variants are
/// never equal.
pub open spec fn eq_val(a: Value, b: Value) -> bool
    decreases a,
{
    match (a, b) {
        (Value::Null, Value::Null) => true,
        (Value::Variable(x), Value::Variable(y)) => x@ == y@,
        (Value::Number(x), Value::Number(y)) => x.repr@ == y.repr@,
        (Value::String(x), Value::String(y)) => x@ == y@,
        (Value::Boolean(x), Value::Boolean(y)) => x == y,
        (Value::Enum(x), Value::Enum(y)) => x@ == y@,
        (Value::List(x), Value::List(y)) => x@.len() == y@.len() && (forall|i: int|
            0 <= i < x@.len() ==> eq_val(x@[i], y@[i])),
        (Value::Object(x), Value::Object(y)) => x@.len() == y@.len() && (forall|i: int|
            0 <= i < x@.len() ==> x@[i].0@ == y@[i].0@ && eq_val(x@[i].1, y@[i].1)),
        (Value::Upload(x), Value::Upload(y)) => x.filename@ == y.filename@,
        _ => false,
    }
}

/// The rendering protocol: the GraphQL literal syntax of a value.
///
/// `null`, `true`/`false`, bare enum names, `$`-prefixed variables, the
/// number's exact text, quoted strings under the escaping rules of
/// `crate::text`, `[..]` lists and `{..}` objects with `, `-joined parts,
/// and `null` for uploads, which have no literal syntax.
pub open spec fn render(v: Value) -> Seq<char>
    decreases v, 1int,
{
    match v {
        Value::Null => seq!['n', 'u', 'l', 'l'],
        Value::Variable(name) => seq!['$'] + name@,
        Value::Number(n) => n.repr@,
        Value::String(s) => quoted(s@),
        Value::Boolean(b) => if b {
            seq!['t', 'r', 'u', 'e']
        } else {
            seq!['f', 'a', 'l', 's', 'e']
        },
        Value::Enum(name) => name@,
        Value::List(items) => seq!['['] + render_items(items@) + seq![']'],
        Value::Object(fields) => seq!['{'] + render_fields(fields@) + seq!['}'],
        Value::Upload(u) => seq!['n', 'u', 'l', 'l'],
    }
}

/// List elements joined by `, `.
pub open spec fn render_items(s: Seq<Value>) -> Seq<char>
    decreases s, 0int,
{
    if s.len() == 0 {
        Seq::empty()
    } else if s.len() == 1 {
        render(s[0])
    } else {
        render_items(s.subrange(0, s.len() - 1)) + seq![',', ' '] + render(s[s.len() - 1])
    }
}

/// Object fields as `key: value`, joined by `, `, in stored (sorted) order.
pub open spec fn render_fields(s: Seq<(String, Value)>) -> Seq<char>
    decreases s, 0int,
{
    if s.len() == 0 {
        Seq::empty()
    } else if s.len() == 1 {
        s[0].0@ + seq![':', ' '] + render(s[0].1)
    } else {
        render_fields(s.subrange(0, s.len() - 1)) + seq![',', ' '] + s[s.len() - 1].0@ + seq![
            ':',
            ' ',
        ] + render(s[s.len() - 1].1)
    }
}

/// Appends the characters of `s` to `out` unchanged.
fn push_str_chars(s: &str, out: &mut Vec<char>)
    ensures
        final(out)@ == old(out)@ + s@,
{
    let n: usize = s.unicode_len();
    let mut i: usize = 0;
    while i < n
        invariant
            i <= n,
            n == s@.len(),
            out@ =~= old(out)@ + s@.subrange(0, i as int),
        decreases n - i,
    {
        let c = s.get_char(i);
        out.push(c);
        proof {
            assert(out@ =~= old(out)@ + s@.subrange(0, i + 1));
        }
        i = i + 1;
    }
    proof {
        assert(s@.subrange(0, n as int) =~= s@);
    }
}

/// Relies on `String`'s `FromIterator` implementation in std: collecting
/// an iterator of characters builds the string of exactly those
/// characters, in order.
#[verifier::external_body]
fn chars_to_string(chars: &Vec<char>) -> (r: String)
    ensures
        r@ == chars@,
{
    chars.iter().collect()
}

/// Appends the rendering of `v` to `out`.
fn write_value(v: &Value, out: &mut Vec<char>)
    ensures
        final(out)@ == old(out)@ + render(*v),
    decreases *v,
{
    match v {
        Value::Null => {
            out.push('n');
            out.push('u');
            out.push('l');
            out.push('l');
            proof {
                assert(out@ =~= old(out)@ + render(*v));
            }
        }
        Value::Variable(name) => {
            out.push('$');
            push_str_chars(name.as_str(), out);
            proof {
                assert(out@ =~= old(out)@ + render(*v));
            }
        }
        Value::Number(num) => {
            push_str_chars(num.repr.as_str(), out);
        }
        Value::String(s) => {
            write_quoted(s.as_str(), out);
        }
        Value::Boolean(b) => {
            if *b {
                out.push('t');
                out.push('r');
                out.push('u');
                out.push('e');
            } else {
                out.push('f');
                out.push('a');
                out.push('l');
                out.push('s');
                out.push('e');
            }
            proof {
                assert(out@ =~= old(out)@ + render(*v));
            }
        }
        Value::Enum(name) => {
            push_str_chars(name.as_str(), out);
        }
        Value::List(items) => {
            out.push('[');
            let n: usize = items.len();
            let mut i: usize = 0;
            while i < n
                invariant
                    i <= n,
                    n == items@.len(),
                    v == Value::List(*items),
                    out@ =~= old(out)@ + seq!['['] + render_items(items@.subrange(0, i as int)),
                decreases n - i,
            {
                if i > 0 {
                    out.push(',');
                    out.push(' ');
                }
                proof {
                    assert((*v)->List_0 == *items);
                    assert(decreases_to!(*v => (*v)->List_0));
                    assert(decreases_to!(*items => items@));
                    assert(decreases_to!(items@ => items@[i as int]));
                }
                write_value(&items[i], out);
                proof {
                    let pre = items@.subrange(0, i as int);
                    let pre1 = items@.subrange(0, i + 1);
                    assert(pre1.subrange(0, i as int) =~= pre);
                    if i > 0 {
                        assert(render_items(pre1) == render_items(pre) + seq![',', ' ']
                            + render(items@[i as int]));
                    }
                    assert(out@ =~= old(out)@ + seq!['['] + render_items(pre1));
                }
                i = i + 1;
            }
            out.push(']');
            proof {
                assert(items@.subrange(0, n as int) =~= items@);
                assert(out@ =~= old(out)@ + render(*v));
            }
        }
        Value::Object(fields) => {
            out.push('{');
            let n: usize = fields.len();
            let mut i: usize = 0;
            while i < n
                invariant
                    i <= n,
                    n == fields@.len(),
                    v == Value::Object(*fields),
                    out@ =~= old(out)@ + seq!['{'] + render_fields(fields@.subrange(0, i as int)),
                decreases n - i,
            {
                if i > 0 {
                    out.push(',');
                    out.push(' ');
                }
                push_str_chars(fields[i].0.as_str(), out);
                out.push(':');
                out.push(' ');
                proof {
                    assert((*v)->Object_0 == *fields);
                    assert(decreases_to!(*v => (*v)->Object_0));
                    assert(decreases_to!(*fields => fields@));
                    assert(decreases_to!(fields@ => fields@[i as int]));
                    assert(decreases_to!(fields@[i as int] => fields@[i as int].1));
                }
                write_value(&fields[i].1, out);
                proof {
                    let pre = fields@.subrange(0, i as int);
                    let pre1 = fields@.subrange(0, i + 1);
                    assert(pre1.subrange(0, i as int) =~= pre);
                    if i > 0 {
                        assert(render_fields(pre1) == render_fields(pre) + seq![',', ' ']
                            + fields@[i as int].0@ + seq![':', ' '] + render(fields@[i as int].1));
                    }
                    assert(out@ =~= old(out)@ + seq!['{'] + render_fields(pre1));
                }
                i = i + 1;
            }
            out.push('}');
            proof {
                assert(fields@.subrange(0, n as int) =~= fields@);
                assert(out@ =~= old(out)@ + render(*v));
            }
        }
        Value::Upload(u) => {
            out.push('n');
            out.push('u');
            out.push('l');
            out.push('l');
            proof {
                assert(out@ =~= old(out)@ + render(*v));
            }
        }
    }
}

impl Value {
    /// Structural equality under the equality protocol `eq_val`.
    pub fn eq_value(&self, other: &Value) -> (r: bool)
        ensures
            r == eq_val(*self, *other),
        decreases *self,
    {
        match (self, other) {
            (Value::Null, Value::Null) => true,
            (Value::Variable(a), Value::Variable(b)) => *a == *b,
            (Value::Number(a), Value::Number(b)) => a.repr == b.repr,
            (Value::String(a), Value::String(b)) => *a == *b,
            (Value::Boolean(a), Value::Boolean(b)) => *a == *b,
            (Value::Enum(a), Value::Enum(b)) => *a == *b,
            (Value::List(a), Value::List(b)) => {
                if a.len() != b.len() {
                    return false;
                }
                let n: usize = a.len();
                let mut i: usize = 0;
                while i < n
                    invariant
                        i <= n,
                        n == a@.len(),
                        n == b@.len(),
                        self == Value::List(*a),
                        other == Value::List(*b),
                        forall|j: int| 0 <= j < i ==> eq_val(a@[j], b@[j]),
                    decreases n - i,
                {
                    proof {
                        assert((*self)->List_0 == *a);
                        assert(decreases_to!(*self => (*self)->List_0));
                        assert(decreases_to!(*a => a@));
                        assert(decreases_to!(a@ => a@[i as int]));
                    }
                    if !a[i].eq_value(&b[i]) {
                        return false;
                    }
                    i = i + 1;
                }
                true
            }
            (Value::Object(a), Value::Object(b)) => {
                if a.len() != b.len() {
                    return false;
                }
                let n: usize = a.len();
                let mut i: usize = 0;
                while i < n
                    invariant
                        i <= n,
                        n == a@.len(),
                        n == b@.len(),
                        self == Value::Object(*a),
                        other == Value::Object(*b),
                        forall|j: int| 0 <= j < i ==> a@[j].0@ == b@[j].0@ && eq_val(
                            a@[j].1,
                            b@[j].1,
                        ),
                    decreases n - i,
                {
                    if !(a[i].0 == b[i].0) {
                        return false;
                    }
                    proof {
                        assert((*self)->Object_0 == *a);
                        assert(decreases_to!(*self => (*self)->Object_0));
                        assert(decreases_to!(*a => a@));
                        assert(decreases_to!(a@ => a@[i as int]));
                        assert(decreases_to!(a@[i as int] => a@[i as int].1));
                    }
                    if !a[i].1.eq_value(&b[i].1) {
                        return false;
                    }
                    i = i + 1;
                }
                true
            }
            (Value::Upload(a), Value::Upload(b)) => a.filename == b.filename,
            _ => false,
        }
    }

    /// The GraphQL literal syntax of this value, under the rendering
    /// protocol `render`.
    pub fn to_text(&self) -> (r: String)
        ensures
            r@ == render(*self),
    {
        let mut out: Vec<char> = Vec::new();
        write_value(self, &mut out);
        chars_to_string(&out)
    }

    /// Binds `key` to `value` among this object's fields, keeping them
    /// sorted by key; any value already bound to `key` is replaced. Any
    /// other variant comes back unchanged.
    pub fn object_insert(self, key: String, value: Value) -> (r: Value)
        ensures
            self matches Value::Object(f0) ==> (r matches Value::Object(f1) && f1@
                == spec_insert_field(f0@, key, value)),
            (self matches Value::Object(f0) && sorted_keys(f0@)) ==> (r matches Value::Object(f1)
                && sorted_keys(f1@)),
            !(self is Object) ==> r == self,
    {
        match self {
            Value::Object(mut fields) => {
                proof {
                    if sorted_keys(fields@) {
                        lemma_insert_field_sorted(fields@, key, value);
                    }
                }
                insert_field(&mut fields, key, value);
                Value::Object(fields)
            }
            other => other,
        }
    }
}

impl Clone for Value {
    /// Duplicates the value; the copy equals the original under the
    /// equality protocol.
    fn clone(&self) -> (r: Self)
        ensures
            eq_val(*self, r),
        decreases *self,
    {
        match self {
            Value::Null => Value::Null,
            Value::Variable(name) => Value::Variable(name.clone()),
            Value::Number(n) => Value::Number(n.clone()),
            Value::String(s) => Value::String(s.clone()),
            Value::Boolean(b) => Value::Boolean(*b),
            Value::Enum(name) => Value::Enum(name.clone()),
            Value::List(items) => {
                let n: usize = items.len();
                let mut out: Vec<Value> = Vec::new();
                let mut i: usize = 0;
                while i < n
                    invariant
                        i <= n,
                        n == items@.len(),
                        out@.len() == i,
                        self == Value::List(*items),
                        forall|j: int| 0 <= j < i ==> eq_val(items@[j], out@[j]),
                    decreases n - i,
                {
                    proof {
                        assert((*self)->List_0 == *items);
                        assert(decreases_to!(*self => (*self)->List_0));
                        assert(decreases_to!(*items => items@));
                        assert(decreases_to!(items@ => items@[i as int]));
                    }
                    out.push(items[i].clone());
                    i = i + 1;
                }
                Value::List(out)
            }
            Value::Object(fields) => {
                let n: usize = fields.len();
                let mut out: Vec<(String, Value)> = Vec::new();
                let mut i: usize = 0;
                while i < n
                    invariant
                        i <= n,
                        n == fields@.len(),
                        out@.len() == i,
                        self == Value::Object(*fields),
                        forall|j: int| 0 <= j < i ==> fields@[j].0@ == out@[j].0@ && eq_val(
                            fields@[j].1,
                            out@[j].1,
                        ),
                    decreases n - i,
                {
                    proof {
                        assert((*self)->Object_0 == *fields);
                        assert(decreases_to!(*self => (*self)->Object_0));
                        assert(decreases_to!(*fields => fields@));
                        assert(decreases_to!(fields@ => fields@[i as int]));
                        assert(decreases_to!(fields@[i as int] => fields@[i as int].1));
                    }
                    out.push((fields[i].0.clone(), fields[i].1.clone()));
                    i = i + 1;
                }
                Value::Object(out)
            }
            Value::Upload(u) => Value::Upload(u.clone()),
        }
    }
}

/// Equality is reflexive: every value equals itself under the protocol.
pub proof fn lemma_eq_val_reflexive(v: Value)
    ensures
        eq_val(v, v),
    decreases v,
{
    match v {
        Value::List(x) => {
            assert forall|i: int| 0 <= i < x@.len() implies eq_val(x@[i], x@[i]) by {
                assert(decreases_to!(v => v->List_0));
                lemma_eq_val_reflexive(x@[i]);
            }
        }
        Value::Object(x) => {
            assert forall|i: int| 0 <= i < x@.len() implies x@[i].0@ == x@[i].0@ && eq_val(
                x@[i].1,
                x@[i].1,
            ) by {
                assert(decreases_to!(v => v->Object_0));
                lemma_eq_val_reflexive(x@[i].1);
            }
        }
        _ => {}
    }
}

/// An object's contents, equality and rendering do not depend on the order
/// in which two distinct keys were bound: both orders build the same sorted
/// field list, so the resulting objects are equal under the protocol and
/// render to the same text (in sorted key order either way).
pub proof fn lemma_object_key_order_independent(
    a: Vec<(String, Value)>,
    b: Vec<(String, Value)>,
    s: Seq<(String, Value)>,
    k1: String,
    v1: Value,
    k2: String,
    v2: Value,
)
    requires
        k1@ != k2@,
        a@ == spec_insert_field(spec_insert_field(s, k1, v1), k2, v2),
        b@ == spec_insert_field(spec_insert_field(s, k2, v2), k1, v1),
    ensures
        eq_val(Value::Object(a), Value::Object(b)),
        render(Value::Object(a)) == render(Value::Object(b)),
{
    crate::fields::lemma_insert_field_commutes(s, k1, v1, k2, v2);
    assert(a@ == b@);
    assert forall|i: int| 0 <= i < a@.len() implies a@[i].0@ == b@[i].0@ && eq_val(
        a@[i].1,
        b@[i].1,
    ) by {
        lemma_eq_val_reflexive(a@[i].1);
    }
}

/// Object equality is key-order-independent in full generality: two
/// objects whose (sorted) field lists bind the same keys to the same
/// values are equal under the protocol — and render to the same text —
/// however many bindings they were built from and in whatever order.
pub proof fn lemma_object_eq_extensional(a: Vec<(String, Value)>, b: Vec<(String, Value)>)
    requires
        sorted_keys(a@),
        sorted_keys(b@),
        forall|k: Seq<char>| has_key(a@, k) <==> has_key(b@, k),
        forall|i: int, j: int|
            0 <= i < a@.len() && 0 <= j < b@.len() && a@[i].0@ == b@[j].0@ ==> a@[i].1 == b@[j].1,
    ensures
        eq_val(Value::Object(a), Value::Object(b)),
        render(Value::Object(a)) == render(Value::Object(b)),
{
    lemma_sorted_fields_canonical(a@, b@);
    assert forall|i: int| 0 <= i < a@.len() implies a@[i].0@ == b@[i].0@ && eq_val(
        a@[i].1,
        b@[i].1,
    ) by {
        lemma_eq_val_reflexive(a@[i].1);
    }
    lemma_render_fields_by_views(a@, b@);
}

/// Rendering reads only the keys' text and the values: field lists equal
/// entry for entry render the same.
proof fn lemma_render_fields_by_views(a: Seq<(String, Value)>, b: Seq<(String, Value)>)
    requires
        a.len() == b.len(),
        forall|i: int| 0 <= i < a.len() ==> a[i].0@ == b[i].0@ && a[i].1 == b[i].1,
    ensures
        render_fields(a) == render_fields(b),
    decreases a.len(),
{
    if a.len() > 0 {
        let at = a.subrange(0, a.len() - 1);
        let bt = b.subrange(0, b.len() - 1);
        lemma_render_fields_by_views(at, bt);
    }
}

impl Default for Value {
    /// `Null` is the designated fallback for call sites that need a
    /// default.
    fn default() -> (r: Self)
        ensures
            r == Value::Null,
    {
        Value::Null
    }
}

} // verus!
