//! The text form of JSON documents, written by `serde_json`.

use crate::json::{
    fields_of, lemma_array_view, lemma_object_view, real_number, Json, JsonValue,
};
use crate::seqs::fields_map;
use vstd::prelude::*;

verus! {

#[verifier::external_type_specification]
#[verifier::external_body]
pub struct ExValue(serde_json::Value);

#[verifier::external_type_specification]
#[verifier::external_body]
#[verifier::reject_recursive_types(K)]
#[verifier::reject_recursive_types(V)]
pub struct ExObjectMap<K, V>(serde_json::Map<K, V>);

/// The document that a `serde_json::Value` holds.
pub uninterp spec fn value_doc(value: serde_json::Value) -> JsonValue;

/// The fields that a `serde_json::Map` holds.
pub uninterp spec fn map_doc(map: serde_json::Map<String, serde_json::Value>) -> Map<
    Seq<char>,
    JsonValue,
>;

/// The map without fields.
pub open spec fn no_fields() -> Map<Seq<char>, JsonValue> {
    Map::empty()
}

/// The documents that the values in `items` hold, in order.
pub open spec fn docs_of(items: Seq<serde_json::Value>) -> Seq<JsonValue> {
    Seq::new(items.len(), |i: int| value_doc(items[i]))
}

/// The compact JSON text that `serde_json` writes for a document.
pub uninterp spec fn json_text(doc: JsonValue) -> Seq<char>;

/// `serde_json::Value::Null`: holds `null`.
#[verifier::external_body]
fn value_null() -> (out: serde_json::Value)
    ensures
        value_doc(out) == JsonValue::Null,
{
    serde_json::Value::Null
}

/// `serde_json::Value::Bool`: holds the given truth value.
#[verifier::external_body]
fn value_bool(b: bool) -> (out: serde_json::Value)
    ensures
        value_doc(out) == JsonValue::Bool(b),
{
    serde_json::Value::Bool(b)
}

/// `serde_json::Value::from` on an `i64`: holds that whole number.
#[verifier::external_body]
fn value_int(n: i64) -> (out: serde_json::Value)
    ensures
        value_doc(out) == JsonValue::Int(n as int),
{
    serde_json::Value::from(n)
}

/// `serde_json::Value::from` on a `u64`: holds that whole number.
#[verifier::external_body]
fn value_uint(n: u64) -> (out: serde_json::Value)
    ensures
        value_doc(out) == JsonValue::Int(n as int),
{
    serde_json::Value::from(n)
}

/// `serde_json::from_str` for a `serde_json::Number`, and its `is_f64`:
/// tells whether the text denotes a floating-point number.
#[verifier::external_body]
pub(crate) fn is_real_text(text: &str) -> (out: bool)
    ensures
        out == (real_number(text@) is Some),
{
    match serde_json::from_str::<serde_json::Number>(text) {
        Ok(number) => number.is_f64(),
        Err(_) => false,
    }
}

/// `serde_json::from_str` for a `serde_json::Number`: for a text that
/// denotes a floating-point number, the value that holds that number.
#[verifier::external_body]
fn value_real(text: &str) -> (out: serde_json::Value)
    requires
        real_number(text@) is Some,
    ensures
        value_doc(out) == JsonValue::Real(real_number(text@)->0),
{
    serde_json::from_str::<serde_json::Number>(text).map_or(
        serde_json::Value::Null,
        serde_json::Value::Number,
    )
}

/// `serde_json::Value::String`: holds the given text.
#[verifier::external_body]
fn value_str(s: String) -> (out: serde_json::Value)
    ensures
        value_doc(out) == JsonValue::Str(s@),
{
    serde_json::Value::String(s)
}

/// `serde_json::Value::Array`: holds the given items, in order.
#[verifier::external_body]
fn value_array(items: Vec<serde_json::Value>) -> (out: serde_json::Value)
    ensures
        value_doc(out) == JsonValue::Array(docs_of(items@)),
{
    serde_json::Value::Array(items)
}

/// `serde_json::Map::new`: a map without fields.
#[verifier::external_body]
fn map_new() -> (out: serde_json::Map<String, serde_json::Value>)
    ensures
        map_doc(out) == no_fields(),
{
    serde_json::Map::new()
}

/// `serde_json::Map::insert`: sets the field `key` to `value`, in place of
/// a value that the key had.
#[verifier::external_body]
fn map_insert(
    map: &mut serde_json::Map<String, serde_json::Value>,
    key: String,
    value: serde_json::Value,
)
    ensures
        map_doc(*final(map)) == map_doc(*old(map)).insert(key@, value_doc(value)),
{
    map.insert(key, value);
}

/// `serde_json::Value::Object`: holds the fields of the given map.
#[verifier::external_body]
fn value_object(map: serde_json::Map<String, serde_json::Value>) -> (out: serde_json::Value)
    ensures
        value_doc(out) == JsonValue::Object(map_doc(map)),
{
    serde_json::Value::Object(map)
}

/// `Display` of `serde_json::Value`: the compact JSON text of what the
/// value holds.
#[verifier::external_body]
fn render_value(value: &serde_json::Value) -> (out: String)
    ensures
        out@ == json_text(value_doc(*value)),
{
    value.to_string()
}

/// The `serde_json::Value` that holds the document `doc`.
#[verifier::loop_isolation(false)]
pub fn to_outside(doc: &Json) -> (out: serde_json::Value)
    ensures
        value_doc(out) == doc@,
    decreases doc,
{
    match doc {
        Json::Null => value_null(),
        Json::Bool(b) => value_bool(*b),
        Json::Int(n) => value_int(*n),
        Json::UInt(n) => value_uint(*n),
        Json::Real(d) => value_real(d.text()),
        Json::Str(s) => value_str(s.clone()),
        Json::Array(items) => {
            let mut converted: Vec<serde_json::Value> = Vec::new();
            let mut i: usize = 0;
            while i < items.len()
                invariant
                    i <= items.len(),
                    converted.len() == i,
                    forall|k: int| 0 <= k < i ==> value_doc(converted@[k]) == items@[k]@,
                decreases items.len() - i,
            {
                converted.push(to_outside(&items[i]));
                i += 1;
            }
            let out = value_array(converted);
            proof {
                lemma_array_view(*items);
                assert(value_doc(out)->Array_0 =~= doc@->Array_0);
            }
            out
        },
        Json::Object(fields) => {
            let mut map = map_new();
            let mut i: usize = 0;
            assert(fields_of(fields@).take(0) =~= Seq::empty());
            while i < fields.len()
                invariant
                    i <= fields.len(),
                    map_doc(map) == fields_map(fields_of(fields@).take(i as int)),
                decreases fields.len() - i,
            {
                let value = to_outside(&fields[i].1);
                map_insert(&mut map, fields[i].0.clone(), value);
                proof {
                    let listed = fields_of(fields@);
                    assert(listed.take(i + 1).drop_last() =~= listed.take(i as int));
                    assert(listed.take(i + 1).last() == listed[i as int]);
                }
                i += 1;
            }
            let out = value_object(map);
            proof {
                lemma_object_view(*fields);
                assert(fields_of(fields@).take(fields.len() as int) =~= fields_of(fields@));
            }
            out
        },
    }
}

/// The compact JSON text of `doc`.
pub fn render(doc: &Json) -> (out: String)
    ensures
        out@ == json_text(doc@),
{
    let value = to_outside(doc);
    render_value(&value)
}

} // verus!
