//! JSON documents as plain data, with their mathematical content as the view.
//!
//! An object is a list of named fields. Where a name occurs more than once the last
//! occurrence counts, so the content of an object is a map from names to values.

use crate::text::str_eq;
use vstd::prelude::*;

verus! {

/// A JSON number, kept exactly as it was read.
#[verifier::external_type_specification]
#[verifier::external_body]
pub struct ExNumber(serde_json::Number);

/// Trusted: cloning a `serde_json::Number` (a derived `Clone`) yields an equal number.
pub assume_specification[ <serde_json::Number as Clone>::clone ](
    n: &serde_json::Number,
) -> (r: serde_json::Number)
    ensures
        r == *n,
;

/// A JSON document.
#[derive(Debug)]
pub enum Json {
    Null,
    Bool(bool),
    Number(serde_json::Number),
    Text(String),
    Array(Vec<Json>),
    Object(JsonObject),
}

/// A JSON object: named fields in the order in which they were added.
#[derive(Debug)]
pub struct JsonObject {
    pub fields: Vec<(String, Json)>,
}

/// What a JSON document says, free of how it is stored.
pub ghost enum JsonValue {
    Null,
    Bool(bool),
    Number(serde_json::Number),
    Text(Seq<char>),
    Array(Seq<JsonValue>),
    Object(Map<Seq<char>, JsonValue>),
}

impl JsonValue {
    /// The field `key` of an object; `None` for a missing field and for anything but an object.
    pub open spec fn field(self, key: Seq<char>) -> Option<JsonValue> {
        match self {
            JsonValue::Object(fields) => if fields.contains_key(key) {
                Some(fields[key])
            } else {
                None
            },
            _ => None,
        }
    }

    /// The characters of a string; `None` for anything but a string.
    pub open spec fn text(self) -> Option<Seq<char>> {
        match self {
            JsonValue::Text(t) => Some(t),
            _ => None,
        }
    }

    /// The items of an array; `None` for anything but an array.
    pub open spec fn items(self) -> Option<Seq<JsonValue>> {
        match self {
            JsonValue::Array(items) => Some(items),
            _ => None,
        }
    }
}

/// The field `key` of `value`, where `value` is present.
pub open spec fn field_of(value: Option<JsonValue>, key: Seq<char>) -> Option<JsonValue> {
    match value {
        Some(v) => v.field(key),
        None => None,
    }
}

/// The names of `fields`, in order.
pub open spec fn field_names(fields: Seq<(String, Json)>) -> Seq<Seq<char>> {
    Seq::new(fields.len(), |i: int| fields[i].0@)
}

/// The index of the last occurrence of `name` in `names`, or -1 where there is none.
pub open spec fn last_index(names: Seq<Seq<char>>, name: Seq<char>) -> int
    decreases names.len(),
{
    if names.len() == 0 {
        -1
    } else if names.last() == name {
        names.len() - 1
    } else {
        last_index(names.drop_last(), name)
    }
}

/// The last index lies in the list or is -1, it holds `name`, and no later index does.
pub proof fn lemma_last_index(names: Seq<Seq<char>>, name: Seq<char>)
    ensures
        -1 <= last_index(names, name) < names.len(),
        last_index(names, name) >= 0 ==> names[last_index(names, name)] == name,
        forall|j: int| last_index(names, name) < j < names.len() ==> names[j] != name,
    decreases names.len(),
{
    if names.len() > 0 && names.last() != name {
        let front = names.drop_last();
        lemma_last_index(front, name);
        assert forall|j: int| last_index(names, name) < j < names.len() implies names[j]
            != name by {
            if j < front.len() {
                assert(front[j] == names[j]);
            }
        }
    }
}

/// The index that holds `name` and has no later occurrence after it is the last index.
pub proof fn lemma_last_index_is(names: Seq<Seq<char>>, name: Seq<char>, i: int)
    requires
        -1 <= i < names.len(),
        i >= 0 ==> names[i] == name,
        forall|j: int| i < j < names.len() ==> names[j] != name,
    ensures
        last_index(names, name) == i,
    decreases names.len(),
{
    if names.len() > 0 && names.last() != name {
        lemma_last_index_is(names.drop_last(), name, i);
    }
}

impl View for Json {
    type V = JsonValue;

    open spec fn view(&self) -> JsonValue
        decreases self,
    {
        match self {
            Json::Null => JsonValue::Null,
            Json::Bool(b) => JsonValue::Bool(*b),
            Json::Number(n) => JsonValue::Number(*n),
            Json::Text(s) => JsonValue::Text(s@),
            Json::Array(items) => JsonValue::Array(items_view(items@)),
            Json::Object(object) => JsonValue::Object(object@),
        }
    }
}

/// The contents of a list of documents, in order.
pub open spec fn items_view(items: Seq<Json>) -> Seq<JsonValue>
    decreases items,
{
    Seq::new(
        items.len(),
        |i: int|
            if 0 <= i < items.len() {
                items[i]@
            } else {
                JsonValue::Null
            },
    )
}

/// The content of a list of fields: each name with the value of its last occurrence.
pub open spec fn fields_map(fields: Seq<(String, Json)>) -> Map<Seq<char>, JsonValue>
    decreases fields,
{
    Map::new(
        |name: Seq<char>| last_index(field_names(fields), name) >= 0,
        |name: Seq<char>|
            {
                let i = last_index(field_names(fields), name);
                if 0 <= i < fields.len() {
                    fields[i].1@
                } else {
                    JsonValue::Null
                }
            },
    )
}

impl View for JsonObject {
    type V = Map<Seq<char>, JsonValue>;

    open spec fn view(&self) -> Map<Seq<char>, JsonValue>
        decreases self,
    {
        fields_map(self.fields@)
    }
}

/// A field added at the end sets its name to its value.
pub proof fn lemma_fields_map_push(fields: Seq<(String, Json)>, field: (String, Json))
    ensures
        fields_map(fields.push(field)) == fields_map(fields).insert(field.0@, field.1@),
{
    let names = field_names(fields);
    let after = field_names(fields.push(field));
    assert(after.drop_last() =~= names);
    assert forall|k: Seq<char>|
        last_index(after, k) == (if k == field.0@ {
            names.len() as int
        } else {
            last_index(names, k)
        }) by {}
    assert forall|k: Seq<char>| k != field.0@ && last_index(names, k) >= 0 implies (
    #[trigger] fields_map(fields.push(field))[k]) == fields_map(fields)[k] by {
        lemma_last_index(names, k);
    }
    assert(fields_map(fields.push(field)) =~= fields_map(fields).insert(field.0@, field.1@));
}

/// A field put in the place of the last field of the same name sets that name to its value.
pub proof fn lemma_fields_map_update(fields: Seq<(String, Json)>, i: int, field: (String, Json))
    requires
        0 <= i < fields.len(),
        i == last_index(field_names(fields), field.0@),
    ensures
        fields_map(fields.update(i, field)) == fields_map(fields).insert(field.0@, field.1@),
{
    let names = field_names(fields);
    let updated = fields.update(i, field);
    lemma_last_index(names, field.0@);
    assert(field_names(updated) =~= names);
    assert forall|k: Seq<char>| #[trigger]
        fields_map(updated).contains_key(k) implies fields_map(updated)[k] == fields_map(
        fields,
    ).insert(field.0@, field.1@)[k] by {
        lemma_last_index(names, k);
    }
    assert(fields_map(updated) =~= fields_map(fields).insert(field.0@, field.1@));
}

/// The first `n + 1` fields are the first `n` with the next one added.
pub proof fn lemma_fields_map_take(fields: Seq<(String, Json)>, n: int)
    requires
        0 <= n < fields.len(),
    ensures
        fields_map(fields.take(n + 1)) == fields_map(fields.take(n)).insert(
            fields[n].0@,
            fields[n].1@,
        ),
{
    assert(fields.take(n + 1) =~= fields.take(n).push(fields[n]));
    lemma_fields_map_push(fields.take(n), fields[n]);
}

impl JsonObject {
    /// An object without fields.
    pub fn new() -> (object: JsonObject)
        ensures
            object@ == Map::<Seq<char>, JsonValue>::empty(),
            object.fields@.len() == 0,
    {
        let object = JsonObject { fields: Vec::new() };
        assert(object@ =~= Map::<Seq<char>, JsonValue>::empty());
        object
    }

    /// Whether the object has no field.
    pub fn is_empty(&self) -> (empty: bool)
        ensures
            empty == (self@ == Map::<Seq<char>, JsonValue>::empty()),
    {
        let empty = self.fields.len() == 0;
        proof {
            let names = field_names(self.fields@);
            if empty {
                assert(self@ =~= Map::<Seq<char>, JsonValue>::empty());
            } else {
                let name = names[0];
                if last_index(names, name) < 0 {
                    lemma_last_index(names, name);
                }
                assert(self@.contains_key(name));
            }
        }
        empty
    }

    /// The position of the field that counts for `name`: its last occurrence.
    pub fn position(&self, name: &str) -> (at: Option<usize>)
        ensures
            match at {
                Some(i) => i < self.fields@.len() && i == last_index(
                    field_names(self.fields@),
                    name@,
                ),
                None => last_index(field_names(self.fields@), name@) == -1,
            },
    {
        let mut i: usize = self.fields.len();
        while i > 0
            invariant
                i <= self.fields.len(),
                forall|j: int|
                    i <= j < self.fields@.len() ==> field_names(self.fields@)[j] != name@,
            decreases i,
        {
            if str_eq(self.fields[i - 1].0.as_str(), name) {
                proof {
                    lemma_last_index_is(field_names(self.fields@), name@, i - 1);
                }
                return Some(i - 1);
            }
            i -= 1;
        }
        proof {
            lemma_last_index_is(field_names(self.fields@), name@, -1);
        }
        None
    }

    /// The value of the field `name`.
    pub fn get(&self, name: &str) -> (value: Option<&Json>)
        ensures
            match value {
                Some(v) => self@.contains_key(name@) && v@ == self@[name@],
                None => !self@.contains_key(name@),
            },
    {
        match self.position(name) {
            Some(i) => Some(&self.fields[i].1),
            None => None,
        }
    }

    /// Sets the field `name` to `value`, whether or not the object had such a field.
    pub fn insert(&mut self, name: String, value: Json)
        ensures
            final(self)@ == old(self)@.insert(name@, value@),
    {
        let ghost before = self.fields@;
        match self.position(name.as_str()) {
            Some(i) => {
                proof {
                    lemma_fields_map_update(before, i as int, (name, value));
                }
                self.fields.set(i, (name, value));
            },
            None => {
                proof {
                    lemma_fields_map_push(before, (name, value));
                }
                self.fields.push((name, value));
            },
        }
    }
}

impl Json {
    /// The field `name` of an object.
    pub fn field(&self, name: &str) -> (value: Option<&Json>)
        ensures
            match value {
                Some(v) => self@.field(name@) == Some(v@),
                None => self@.field(name@) is None,
            },
    {
        match self {
            Json::Object(object) => object.get(name),
            _ => None,
        }
    }

    /// The characters of a string.
    pub fn as_text(&self) -> (text: Option<&str>)
        ensures
            match text {
                Some(t) => self@.text() == Some(t@),
                None => self@.text() is None,
            },
    {
        match self {
            Json::Text(s) => Some(s.as_str()),
            _ => None,
        }
    }

    /// The items of an array.
    pub fn as_array(&self) -> (items: Option<&Vec<Json>>)
        ensures
            match items {
                Some(v) => self@.items() == Some(items_view(v@)),
                None => self@.items() is None,
            },
    {
        match self {
            Json::Array(items) => Some(items),
            _ => None,
        }
    }

    /// The fields of an object.
    pub fn as_object(&self) -> (object: Option<&JsonObject>)
        ensures
            match object {
                Some(o) => self@ == JsonValue::Object(o@),
                None => !(self@ is Object),
            },
    {
        match self {
            Json::Object(object) => Some(object),
            _ => None,
        }
    }

    /// A copy of the document.
    pub fn deep_clone(&self) -> (copy: Json)
        ensures
            copy@ == self@,
        decreases self,
    {
        match self {
            Json::Null => Json::Null,
            Json::Bool(b) => Json::Bool(*b),
            Json::Number(n) => Json::Number(n.clone()),
            Json::Text(s) => Json::Text(s.clone()),
            Json::Array(items) => {
                let mut copies: Vec<Json> = Vec::new();
                let mut i: usize = 0;
                while i < items.len()
                    invariant
                        i <= items.len(),
                        copies@.len() == i,
                        forall|j: int| 0 <= j < i ==> copies@[j]@ == items@[j]@,
                        forall|j: int| 0 <= j < items@.len() ==> decreases_to!(self => items@[j]),
                    decreases items.len() - i,
                {
                    copies.push(items[i].deep_clone());
                    i += 1;
                }
                let copy = Json::Array(copies);
                assert(copy@->Array_0 =~= self@->Array_0);
                copy
            },
            Json::Object(object) => Json::Object(object.deep_clone()),
        }
    }
}

impl JsonObject {
    /// A copy of the object.
    pub fn deep_clone(&self) -> (copy: JsonObject)
        ensures
            copy@ == self@,
        decreases self,
    {
        let mut fields: Vec<(String, Json)> = Vec::new();
        let mut i: usize = 0;
        while i < self.fields.len()
            invariant
                i <= self.fields.len(),
                fields@.len() == i,
                forall|j: int|
                    0 <= j < i ==> (#[trigger] fields@[j]).0@ == self.fields@[j].0@
                        && fields@[j].1@ == self.fields@[j].1@,
                forall|j: int|
                    0 <= j < self.fields@.len() ==> decreases_to!(self => self.fields@[j].1),
            decreases self.fields.len() - i,
        {
            let name = self.fields[i].0.clone();
            let value = self.fields[i].1.deep_clone();
            fields.push((name, value));
            i += 1;
        }
        let copy = JsonObject { fields };
        proof {
            assert(field_names(copy.fields@) =~= field_names(self.fields@));
            assert(copy@ =~= self@);
        }
        copy
    }
}

} // verus!
