//! Reading and writing JSON documents with `serde_json` and `rmp_serde`.
//!
//! The two crates do the work. What they return is named here, not restated: a document
//! read from a text, the text written for a document, and its MessagePack bytes.

use crate::error::ProcessingError;
use crate::json::{
    field_names, items_view, last_index, lemma_last_index, Json, JsonObject, JsonValue,
};
use vstd::prelude::*;

verus! {

/// A JSON document as `serde_json` holds it, carried between its functions unopened.
#[verifier::external_type_specification]
#[verifier::external_body]
pub struct ExValue(serde_json::Value);

/// The error of `serde_json`.
#[verifier::external_type_specification]
#[verifier::external_body]
pub struct ExJsonError(serde_json::Error);

/// The error of the encoder of `rmp_serde`.
#[verifier::external_type_specification]
#[verifier::external_body]
pub struct ExBinaryError(rmp_serde::encode::Error);

/// What a `serde_json::Value` holds: its variant, and below it the same of its parts, an
/// object being the map from its keys to what its values hold.
pub uninterp spec fn json_model(value: serde_json::Value) -> JsonValue;

/// The document that `serde_json::from_str` reads from a text, `None` where it reports an error.
pub uninterp spec fn parsed(text: Seq<char>) -> Option<JsonValue>;

/// The text that `serde_json::to_string` writes for a document, `None` where it reports an
/// error.
pub uninterp spec fn json_text(document: JsonValue) -> Option<Seq<char>>;

/// The bytes that `rmp_serde::encode::to_vec` writes for a document, `None` where it reports
/// an error.
pub uninterp spec fn msgpack_bytes(document: JsonValue) -> Option<Seq<u8>>;

/// Trusted: `serde_json::from_str`, asked for a `serde_json::Value`. Its outcome depends on
/// the text alone; the contract gives that outcome its name and claims nothing else of it.
#[verifier::external_body]
fn read_value(text: &str) -> (r: Result<serde_json::Value, serde_json::Error>)
    ensures
        match r {
            Ok(value) => parsed(text@) == Some(json_model(value)),
            Err(_) => parsed(text@) is None,
        },
{
    serde_json::from_str::<serde_json::Value>(text)
}

/// One level of a `serde_json::Value`: its variant, with what stands below it unopened.
enum ValueParts {
    Null,
    Bool(bool),
    Number(serde_json::Number),
    Text(String),
    Array(Vec<serde_json::Value>),
    Object(Vec<(String, serde_json::Value)>),
}

/// What a list of values holds, in order.
pub open spec fn values_model(items: Seq<serde_json::Value>) -> Seq<JsonValue> {
    Seq::new(items.len(), |i: int| json_model(items[i]))
}

/// The names of a list of named values, in order.
pub open spec fn value_names(fields: Seq<(String, serde_json::Value)>) -> Seq<Seq<char>> {
    Seq::new(fields.len(), |i: int| fields[i].0@)
}

/// What a list of named values holds: each name with what its last value holds.
pub open spec fn value_fields_model(fields: Seq<(String, serde_json::Value)>) -> Map<
    Seq<char>,
    JsonValue,
> {
    Map::new(
        |name: Seq<char>| last_index(value_names(fields), name) >= 0,
        |name: Seq<char>| json_model(fields[last_index(value_names(fields), name)].1),
    )
}

impl ValueParts {
    /// What the value holds of which these are the parts.
    spec fn model(self) -> JsonValue {
        match self {
            ValueParts::Null => JsonValue::Null,
            ValueParts::Bool(b) => JsonValue::Bool(b),
            ValueParts::Number(n) => JsonValue::Number(n),
            ValueParts::Text(s) => JsonValue::Text(s@),
            ValueParts::Array(items) => JsonValue::Array(values_model(items@)),
            ValueParts::Object(fields) => JsonValue::Object(value_fields_model(fields@)),
        }
    }
}

/// Trusted: takes one level of a `serde_json::Value` apart, one arm for each of its
/// variants. The parts hold what the value held. The entries of an object come as its map
/// hands them out, each key once.
#[verifier::external_body]
fn take_apart(value: serde_json::Value) -> (parts: ValueParts)
    ensures
        parts.model() == json_model(value),
        parts matches ValueParts::Object(fields) ==> value_names(fields@).no_duplicates(),
{
    match value {
        serde_json::Value::Null => ValueParts::Null,
        serde_json::Value::Bool(b) => ValueParts::Bool(b),
        serde_json::Value::Number(n) => ValueParts::Number(n),
        serde_json::Value::String(s) => ValueParts::Text(s),
        serde_json::Value::Array(items) => ValueParts::Array(items),
        serde_json::Value::Object(map) => ValueParts::Object(map.into_iter().collect()),
    }
}

/// Trusted: builds the `serde_json::Value` of the given parts. The entries of an object are
/// put into its map in order with `Map::insert`, so a later entry replaces an earlier one
/// of the same name.
#[verifier::external_body]
fn put_together(parts: ValueParts) -> (value: serde_json::Value)
    ensures
        json_model(value) == parts.model(),
{
    match parts {
        ValueParts::Null => serde_json::Value::Null,
        ValueParts::Bool(b) => serde_json::Value::Bool(b),
        ValueParts::Number(n) => serde_json::Value::Number(n),
        ValueParts::Text(s) => serde_json::Value::String(s),
        ValueParts::Array(items) => serde_json::Value::Array(items),
        ValueParts::Object(fields) => {
            let mut map = serde_json::Map::new();
            for (name, value) in fields {
                map.insert(name, value);
            }
            serde_json::Value::Object(map)
        },
    }
}

/// The names of a finite list are finitely many, so what a list of named values holds is a
/// finite map.
proof fn lemma_value_fields_finite(fields: Seq<(String, serde_json::Value)>)
    ensures
        value_fields_model(fields).dom().finite(),
        forall|i: int|
            0 <= i < fields.len() ==> value_fields_model(fields).contains_key(
                #[trigger] value_names(fields)[i],
            ),
{
    let names = value_names(fields);
    let model = value_fields_model(fields);
    assert forall|name: Seq<char>| model.dom().contains(name) <==> names.to_set().contains(
        name,
    ) by {
        lemma_last_index(names, name);
        if names.contains(name) {
            let i = choose|i: int| 0 <= i < names.len() && names[i] == name;
            assert(last_index(names, name) >= i);
        }
    }
    assert(model.dom() =~= names.to_set());
    vstd::seq_lib::seq_to_set_is_finite(names);
    assert forall|i: int| 0 <= i < fields.len() implies model.contains_key(
        #[trigger] names[i],
    ) by {
        assert(names.to_set().contains(names[i]));
    }
}

/// What stands below a name in an object is smaller than what the object holds.
proof fn lemma_value_below_is_smaller(fields: Seq<(String, serde_json::Value)>, i: int)
    requires
        0 <= i < fields.len(),
        value_names(fields).no_duplicates(),
    ensures
        decreases_to!(value_fields_model(fields) => json_model(fields[i].1)),
{
    lemma_value_fields_finite(fields);
    let names = value_names(fields);
    let model = value_fields_model(fields);
    let name = names[i];
    lemma_last_index(names, name);
    assert(last_index(names, name) == i);
    assert(model[name] == json_model(fields[i].1));
    vstd::map::axiom_map_index_decreases_finite(model, name);
}

/// The `Json` that holds what `value` holds.
fn json_of_value(value: serde_json::Value) -> (json: Json)
    ensures
        json@ == json_model(value),
    decreases json_model(value),
{
    let ghost model = json_model(value);
    match take_apart(value) {
        ValueParts::Null => Json::Null,
        ValueParts::Bool(b) => Json::Bool(b),
        ValueParts::Number(n) => Json::Number(n),
        ValueParts::Text(s) => Json::Text(s),
        ValueParts::Array(items) => {
            let ghost all = items@;
            let mut converted: Vec<Json> = Vec::new();
            for item in it: items
                invariant
                    it.seq() == all,
                    model == json_model(value),
                    model == JsonValue::Array(values_model(all)),
                    converted@.len() == it.index(),
                    forall|j: int|
                        0 <= j < it.index() ==> (#[trigger] converted@[j])@ == json_model(all[j]),
            {
                proof {
                    let at = it.index() as int;
                    assert(model->Array_0[at] == json_model(item));
                    assert(decreases_to!(model => model->Array_0));
                    assert(decreases_to!(model->Array_0 => model->Array_0[at]));
                }
                converted.push(json_of_value(item));
            }
            let json = Json::Array(converted);
            assert(json@->Array_0 =~= values_model(all));
            json
        },
        ValueParts::Object(fields) => {
            let ghost all = fields@;
            let mut converted: Vec<(String, Json)> = Vec::new();
            for field in it: fields
                invariant
                    it.seq() == all,
                    model == json_model(value),
                    model == JsonValue::Object(value_fields_model(all)),
                    value_names(all).no_duplicates(),
                    converted@.len() == it.index(),
                    forall|j: int|
                        0 <= j < it.index() ==> (#[trigger] converted@[j]).0@ == all[j].0@
                            && converted@[j].1@ == json_model(all[j].1),
            {
                let (name, below) = field;
                proof {
                    lemma_value_below_is_smaller(all, it.index() as int);
                    assert(decreases_to!(model => model->Object_0));
                }
                converted.push((name, json_of_value(below)));
            }
            let object = JsonObject { fields: converted };
            proof {
                let names = value_names(all);
                assert(field_names(object.fields@) =~= names);
                assert forall|name: Seq<char>| #[trigger]
                    object@.contains_key(name) implies object@[name] == value_fields_model(
                    all,
                )[name] by {
                    lemma_last_index(names, name);
                }
                assert(object@ =~= value_fields_model(all));
            }
            Json::Object(object)
        },
    }
}

/// The `serde_json::Value` that holds what `json` holds.
fn value_of_json(json: &Json) -> (value: serde_json::Value)
    ensures
        json_model(value) == json@,
    decreases json,
{
    match json {
        Json::Null => put_together(ValueParts::Null),
        Json::Bool(b) => put_together(ValueParts::Bool(*b)),
        Json::Number(n) => put_together(ValueParts::Number(n.clone())),
        Json::Text(s) => put_together(ValueParts::Text(s.clone())),
        Json::Array(items) => {
            let mut converted: Vec<serde_json::Value> = Vec::new();
            let mut i: usize = 0;
            while i < items.len()
                invariant
                    i <= items.len(),
                    converted@.len() == i,
                    forall|j: int|
                        0 <= j < i ==> json_model(#[trigger] converted@[j]) == items@[j]@,
                    forall|j: int| 0 <= j < items@.len() ==> decreases_to!(json => items@[j]),
                decreases items.len() - i,
            {
                converted.push(value_of_json(&items[i]));
                i += 1;
            }
            assert(values_model(converted@) =~= items_view(items@));
            put_together(ValueParts::Array(converted))
        },
        Json::Object(object) => {
            let mut converted: Vec<(String, serde_json::Value)> = Vec::new();
            let mut i: usize = 0;
            while i < object.fields.len()
                invariant
                    i <= object.fields.len(),
                    converted@.len() == i,
                    forall|j: int|
                        0 <= j < i ==> (#[trigger] converted@[j]).0@ == object.fields@[j].0@
                            && json_model(converted@[j].1) == object.fields@[j].1@,
                    forall|j: int|
                        0 <= j < object.fields@.len() ==> decreases_to!(
                            json => object.fields@[j].1
                        ),
                decreases object.fields.len() - i,
            {
                let name = object.fields[i].0.clone();
                let value = value_of_json(&object.fields[i].1);
                converted.push((name, value));
                i += 1;
            }
            proof {
                let names = field_names(object.fields@);
                assert(value_names(converted@) =~= names);
                let built = value_fields_model(converted@);
                assert forall|name: Seq<char>| #[trigger]
                    built.contains_key(name) implies built[name] == object@[name] by {
                    lemma_last_index(names, name);
                    let at = last_index(names, name);
                    assert(json_model(converted@[at].1) == object.fields@[at].1@);
                }
                assert(built.dom() =~= object@.dom());
                assert(built =~= object@);
            }
            put_together(ValueParts::Object(converted))
        },
    }
}

/// Trusted: `serde_json::to_string`. Its outcome depends on what the value holds alone; the
/// contract gives that outcome its name and claims nothing else of it.
#[verifier::external_body]
fn write_text(value: &serde_json::Value) -> (r: Result<String, serde_json::Error>)
    ensures
        match r {
            Ok(text) => json_text(json_model(*value)) == Some(text@),
            Err(_) => json_text(json_model(*value)) is None,
        },
{
    serde_json::to_string(value)
}

/// Trusted: `rmp_serde::encode::to_vec`. Its outcome depends on what the value holds alone;
/// the contract gives that outcome its name and claims nothing else of it.
#[verifier::external_body]
fn write_binary(value: &serde_json::Value) -> (r: Result<Vec<u8>, rmp_serde::encode::Error>)
    ensures
        match r {
            Ok(bytes) => msgpack_bytes(json_model(*value)) == Some(bytes@),
            Err(_) => msgpack_bytes(json_model(*value)) is None,
        },
{
    rmp_serde::encode::to_vec(value)
}

/// Reads a JSON document from `text`.
pub fn parse(text: &str) -> (document: Option<Json>)
    ensures
        match document {
            Some(d) => parsed(text@) == Some(d@),
            None => parsed(text@) is None,
        },
{
    match read_value(text) {
        Ok(value) => Some(json_of_value(value)),
        Err(_) => None,
    }
}

/// Writes `document` as JSON text on one line.
pub fn to_text(document: &Json) -> (r: Result<String, ProcessingError>)
    ensures
        match r {
            Ok(text) => json_text(document@) == Some(text@),
            Err(e) => json_text(document@) is None && e == ProcessingError::JsonEncoding,
        },
{
    let value = value_of_json(document);
    match write_text(&value) {
        Ok(text) => Ok(text),
        Err(_) => Err(ProcessingError::JsonEncoding),
    }
}

/// Writes `document` as MessagePack.
pub fn to_binary(document: &Json) -> (r: Result<Vec<u8>, ProcessingError>)
    ensures
        match r {
            Ok(bytes) => msgpack_bytes(document@) == Some(bytes@),
            Err(e) => msgpack_bytes(document@) is None && e == ProcessingError::BinaryEncoding,
        },
{
    let value = value_of_json(document);
    match write_binary(&value) {
        Ok(bytes) => Ok(bytes),
        Err(_) => Err(ProcessingError::BinaryEncoding),
    }
}

} // verus!
