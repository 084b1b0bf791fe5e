//! A JSON document modeled as plain values, and the trusted bridge that
//! parses wire bytes into it.
//!
//! Strings are held as UTF-8 bytes.  A number keeps only its value as an
//! unsigned integer, `None` standing for a number outside `u64` — the wire
//! format the adapter reads uses unsigned counts and indices only.  Object
//! fields keep the order in which the parser handed them over; lookup takes
//! the first binding of a key.

use vstd::prelude::*;

verus! {

#[derive(Debug, PartialEq, Eq)]
pub enum JsonValue {
    Null,
    Bool(bool),
    Num(Option<u64>),
    Str(Vec<u8>),
    Arr(Vec<JsonValue>),
    Obj(Vec<(Vec<u8>, JsonValue)>),
}

/// The first binding of `key` among `fields`, if any.
pub open spec fn obj_lookup(fields: Seq<(Vec<u8>, JsonValue)>, key: Seq<u8>) -> Option<JsonValue>
    decreases fields.len(),
{
    if fields.len() == 0 {
        None
    } else if fields[0].0@ == key {
        Some(fields[0].1)
    } else {
        obj_lookup(fields.drop_first(), key)
    }
}

/// The value under `key` when `v` is an object that binds it.
pub open spec fn get_field(v: JsonValue, key: Seq<u8>) -> Option<JsonValue> {
    match v {
        JsonValue::Obj(fields) => obj_lookup(fields@, key),
        _ => None,
    }
}

/// What a well-formed JSON byte string parses to; `None` when the bytes
/// are not a JSON document.
pub uninterp spec fn json_of(s: Seq<u8>) -> Option<JsonValue>;

/// The plain-value document a `serde_json::Value` holds.
pub uninterp spec fn value_model(v: serde_json::Value) -> JsonValue;

#[verifier::external_type_specification]
#[verifier::external_body]
pub struct ExValue(serde_json::Value);

/// Relies on serde_json::from_slice: whether and how a byte string parses
/// is a function of the bytes alone, and parsing never panics.
#[verifier::external_body]
fn decode(s: &[u8]) -> (r: Option<serde_json::Value>)
    ensures
        r is Some <==> json_of(s@) is Some,
        r matches Some(v) ==> Some(value_model(v)) == json_of(s@),
{
    serde_json::from_slice::<serde_json::Value>(s).ok()
}

/// Relies on the shape of serde_json::Value: each variant is carried over
/// one for one, object fields in the order the map iterates them.
#[verifier::external_body]
fn tree_of_value(v: serde_json::Value) -> (r: JsonValue)
    ensures
        r == value_model(v),
{
    match v {
        serde_json::Value::Null => JsonValue::Null,
        serde_json::Value::Bool(b) => JsonValue::Bool(b),
        serde_json::Value::Number(n) => JsonValue::Num(n.as_u64()),
        serde_json::Value::String(s) => JsonValue::Str(s.into_bytes()),
        serde_json::Value::Array(a) => JsonValue::Arr(a.into_iter().map(tree_of_value).collect()),
        serde_json::Value::Object(o) => JsonValue::Obj(
            o.into_iter().map(|(k, x)| (k.into_bytes(), tree_of_value(x))).collect(),
        ),
    }
}

/// Parses a byte string as one JSON document; `None` when it is not one.
pub fn json_parse(s: &[u8]) -> (r: Option<JsonValue>)
    ensures
        r == json_of(s@),
{
    match decode(s) {
        Some(v) => Some(tree_of_value(v)),
        None => None,
    }
}

/// Looks `key` up in `v` when `v` is an object.
pub fn json_get<'a>(v: &'a JsonValue, key: &[u8]) -> (r: Option<&'a JsonValue>)
    ensures
        match r {
            Some(x) => get_field(*v, key@) == Some(*x),
            None => get_field(*v, key@) is None,
        },
{
    match v {
        JsonValue::Obj(fields) => {
            let mut i: usize = 0;
            proof {
                assert(fields@.skip(0) =~= fields@);
            }
            while i < fields.len()
                invariant
                    0 <= i <= fields@.len(),
                    *v == JsonValue::Obj(*fields),
                    obj_lookup(fields@, key@) == obj_lookup(fields@.skip(i as int), key@),
                decreases fields@.len() - i,
            {
                proof {
                    assert(fields@.skip(i as int)[0] == fields@[i as int]);
                    assert(fields@.skip(i as int).drop_first() =~= fields@.skip(i + 1));
                }
                if crate::textutil::bytes_eq(fields[i].0.as_slice(), key) {
                    proof {
                        assert(fields@.skip(i as int)[0].0@ == key@);
                        assert(obj_lookup(fields@.skip(i as int), key@)
                            == Some(fields@[i as int].1));
                        assert(*v == JsonValue::Obj(*fields));
                    }
                    return Some(&fields[i].1);
                }
                i = i + 1;
            }
            proof {
                assert(fields@.skip(i as int) =~= Seq::<(Vec<u8>, JsonValue)>::empty());
            }
            None
        },
        _ => None,
    }
}

} // verus!
