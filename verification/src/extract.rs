//! The extraction engine: from the claims of a record to its normalized attributes.
//!
//! For each property of the record's type, in the order of the rule table, the first
//! statement is read in the way the property's kind asks for. What cannot be read is left
//! out, never reported.

use crate::image::{create_image_thumbnail_url, thumbnail_url, DEFAULT_WIDTH};
use crate::json::{field_of, items_view, Json, JsonObject, JsonValue};
use crate::rules::{
    find_rules, rule_views, rules_of_type, rules_view, PropertyKind, Rule, TypeRules,
};
use crate::text::{from_chars, lemma_leading_run_is, strings_view, strip_leading, to_chars};
use vstd::prelude::*;

verus! {

/// The attributes taken from a record, and the images still to be asked for.
#[derive(Debug)]
pub struct Extraction {
    /// The normalized attributes.
    pub properties: JsonObject,
    /// The thumbnail addresses of the record's images, in the order of the rules that gave
    /// them. Empty unless images are to be fetched.
    pub image_requests: Vec<String>,
}

/// The first statement that `claims` holds for the property `code`.
pub open spec fn first_statement(claims: Map<Seq<char>, JsonValue>, code: Seq<char>) -> Option<
    JsonValue,
> {
    if claims.contains_key(code) {
        match claims[code] {
            JsonValue::Array(items) => if items.len() > 0 {
                Some(items[0])
            } else {
                None
            },
            _ => None,
        }
    } else {
        None
    }
}

/// The payload of a statement: what stands at `mainsnak.datavalue.value`.
pub open spec fn payload(statement: JsonValue) -> Option<JsonValue> {
    field_of(field_of(statement.field("mainsnak"@), "datavalue"@), "value"@)
}

/// The characters of a string, and no characters for anything else.
pub open spec fn text_or_empty(value: JsonValue) -> Seq<char> {
    match value {
        JsonValue::Text(t) => t,
        _ => Seq::empty(),
    }
}

/// The name under which an image is kept among the attributes.
pub open spec fn image_key() -> Seq<char> {
    "image"@
}

/// The payload of a statement that may be missing.
pub open spec fn payload_of(statement: Option<JsonValue>) -> Option<JsonValue> {
    match statement {
        Some(s) => payload(s),
        None => None,
    }
}

/// The attribute that one rule yields from the first statement of its property, as name and
/// value. Every kind but the last reads the payload of the statement; a property without a
/// kind of its own keeps the statement itself.
///
/// With `fetch_images` an image yields no attribute here: its thumbnail address is asked
/// for, and what comes back is stored later.
pub open spec fn attribute_of(
    code: Seq<char>,
    kind: PropertyKind,
    statement: Option<JsonValue>,
    fetch_images: bool,
) -> Option<(Seq<char>, JsonValue)> {
    let payload = payload_of(statement);
    match kind {
        PropertyKind::Date => match field_of(payload, "time"@) {
            Some(time) => Some((code, JsonValue::Text(strip_leading(text_or_empty(time), '+')))),
            None => None,
        },
        PropertyKind::Reference => match field_of(payload, "id"@) {
            Some(id) => Some((code, id)),
            None => None,
        },
        PropertyKind::Image => match payload {
            Some(JsonValue::Text(filename)) => if fetch_images {
                None
            } else {
                Some(
                    (
                        image_key(),
                        JsonValue::Text(thumbnail_url(filename, DEFAULT_WIDTH as nat)),
                    ),
                )
            },
            _ => None,
        },
        PropertyKind::Text => match field_of(payload, "text"@) {
            Some(text) => Some((code, JsonValue::Text(text_or_empty(text)))),
            None => None,
        },
        PropertyKind::Url => match payload {
            Some(JsonValue::Text(address)) => Some((code, JsonValue::Text(address))),
            _ => None,
        },
        PropertyKind::Payload => match payload {
            Some(value) => Some((code, value)),
            None => None,
        },
        PropertyKind::Passthrough => match statement {
            Some(s) => Some((code, s)),
            None => None,
        },
    }
}

/// The thumbnail address that one rule asks for.
pub open spec fn request_of(
    kind: PropertyKind,
    payload: Option<JsonValue>,
    fetch_images: bool,
) -> Option<Seq<char>> {
    match (kind, payload) {
        (PropertyKind::Image, Some(JsonValue::Text(filename))) => if fetch_images {
            Some(thumbnail_url(filename, DEFAULT_WIDTH as nat))
        } else {
            None
        },
        _ => None,
    }
}

/// The payload that a rule reads: that of the first statement of its property.
pub open spec fn rule_payload(claims: Map<Seq<char>, JsonValue>, code: Seq<char>) -> Option<
    JsonValue,
> {
    payload_of(first_statement(claims, code))
}

/// The attributes that `rules` yield from `claims`. A later rule that yields an attribute of
/// the same name replaces what an earlier one gave.
pub open spec fn extracted(
    rules: Seq<(Seq<char>, PropertyKind)>,
    claims: Map<Seq<char>, JsonValue>,
    fetch_images: bool,
) -> Map<Seq<char>, JsonValue>
    decreases rules.len(),
{
    if rules.len() == 0 {
        Map::empty()
    } else {
        let before = extracted(rules.drop_last(), claims, fetch_images);
        let (code, kind) = rules.last();
        match attribute_of(code, kind, first_statement(claims, code), fetch_images) {
            Some((name, value)) => before.insert(name, value),
            None => before,
        }
    }
}

/// The thumbnail addresses that `rules` ask for, in the order of the rules.
pub open spec fn requested(
    rules: Seq<(Seq<char>, PropertyKind)>,
    claims: Map<Seq<char>, JsonValue>,
    fetch_images: bool,
) -> Seq<Seq<char>>
    decreases rules.len(),
{
    if rules.len() == 0 {
        Seq::empty()
    } else {
        let before = requested(rules.drop_last(), claims, fetch_images);
        let (code, kind) = rules.last();
        match request_of(kind, rule_payload(claims, code), fetch_images) {
            Some(address) => before.push(address),
            None => before,
        }
    }
}

/// The rules that apply to `entity_type`: those of the table, and none for a type that the
/// table does not know.
pub open spec fn rules_applied(
    table: Seq<(Seq<char>, Seq<(Seq<char>, PropertyKind)>)>,
    entity_type: Seq<char>,
) -> Seq<(Seq<char>, PropertyKind)> {
    match rules_of_type(table, entity_type) {
        Some(rules) => rules,
        None => Seq::empty(),
    }
}

/// The payload of `statement`.
pub fn statement_payload(statement: &Json) -> (value: Option<&Json>)
    ensures
        match value {
            Some(v) => payload(statement@) == Some(v@),
            None => payload(statement@) is None,
        },
{
    match statement.field("mainsnak") {
        Some(mainsnak) => match mainsnak.field("datavalue") {
            Some(datavalue) => datavalue.field("value"),
            None => None,
        },
        None => None,
    }
}

/// The first statement that `claims` holds for the property `code`.
pub fn first_statement_of<'a>(claims: &'a JsonObject, code: &str) -> (statement: Option<
    &'a Json,
>)
    ensures
        match statement {
            Some(s) => first_statement(claims@, code@) == Some(s@),
            None => first_statement(claims@, code@) is None,
        },
{
    match claims.get(code) {
        Some(statements) => match statements.as_array() {
            Some(items) => if items.len() > 0 {
                assert(items_view(items@)[0] == items@[0]@);
                Some(&items[0])
            } else {
                None
            },
            None => None,
        },
        None => None,
    }
}

/// The payload of the first statement that `claims` holds for the property `code`.
pub fn first_payload<'a>(claims: &'a JsonObject, code: &str) -> (value: Option<&'a Json>)
    ensures
        match value {
            Some(v) => rule_payload(claims@, code@) == Some(v@),
            None => rule_payload(claims@, code@) is None,
        },
{
    match first_statement_of(claims, code) {
        Some(statement) => statement_payload(statement),
        None => None,
    }
}

/// `text` without its leading `+` signs.
pub fn strip_plus(text: &str) -> (stripped: String)
    ensures
        stripped@ == strip_leading(text@, '+'),
{
    let chars = to_chars(text);
    let mut start: usize = 0;
    while start < chars.len() && chars[start] == '+'
        invariant
            start <= chars.len(),
            forall|j: int| 0 <= j < start ==> chars@[j] == '+',
        decreases chars.len() - start,
    {
        start += 1;
    }
    proof {
        lemma_leading_run_is(chars@, '+', start as nat);
    }
    from_chars(&chars, start, chars.len())
}

/// The characters of a string as a new string, and the empty string for anything else.
fn text_or_empty_of(value: &Json) -> (text: String)
    ensures
        text@ == text_or_empty(value@),
{
    match value.as_text() {
        Some(t) => t.to_owned(),
        None => String::new(),
    }
}

/// Reads one property: adds the attribute that the rule yields to `properties`, and the
/// thumbnail address that it asks for to `image_requests`.
fn apply_rule(
    rule: &Rule,
    claims: &JsonObject,
    fetch_images: bool,
    properties: &mut JsonObject,
    image_requests: &mut Vec<String>,
)
    ensures
        final(properties)@ == (match attribute_of(
            rule.code@,
            rule.kind,
            first_statement(claims@, rule.code@),
            fetch_images,
        ) {
            Some((name, value)) => old(properties)@.insert(name, value),
            None => old(properties)@,
        }),
        strings_view(final(image_requests)@) == (match request_of(
            rule.kind,
            rule_payload(claims@, rule.code@),
            fetch_images,
        ) {
            Some(address) => strings_view(old(image_requests)@).push(address),
            None => strings_view(old(image_requests)@),
        }),
{
    let ghost requests_before = strings_view(image_requests@);
    let statement = first_statement_of(claims, rule.code);
    let found = match statement {
        Some(s) => statement_payload(s),
        None => None,
    };
    match rule.kind {
        PropertyKind::Date => {
            if let Some(value) = found {
                if let Some(time) = value.field("time") {
                    let date = match time.as_text() {
                        Some(t) => strip_plus(t),
                        None => {
                            assert(strip_leading(Seq::<char>::empty(), '+') =~= Seq::<
                                char,
                            >::empty());
                            String::new()
                        },
                    };
                    properties.insert(rule.code.to_owned(), Json::Text(date));
                }
            }
        },
        PropertyKind::Reference => {
            if let Some(value) = found {
                if let Some(id) = value.field("id") {
                    properties.insert(rule.code.to_owned(), id.deep_clone());
                }
            }
        },
        PropertyKind::Image => {
            if let Some(value) = found {
                if let Some(filename) = value.as_text() {
                    let address = create_image_thumbnail_url(filename, None);
                    if fetch_images {
                        image_requests.push(address);
                        assert(strings_view(image_requests@) =~= requests_before.push(
                            thumbnail_url(filename@, DEFAULT_WIDTH as nat),
                        ));
                    } else {
                        properties.insert("image".to_owned(), Json::Text(address));
                    }
                }
            }
        },
        PropertyKind::Text => {
            if let Some(value) = found {
                if let Some(text) = value.field("text") {
                    properties.insert(rule.code.to_owned(), Json::Text(text_or_empty_of(text)));
                }
            }
        },
        PropertyKind::Url => {
            if let Some(value) = found {
                if let Some(address) = value.as_text() {
                    properties.insert(rule.code.to_owned(), Json::Text(address.to_owned()));
                }
            }
        },
        PropertyKind::Payload => {
            if let Some(value) = found {
                properties.insert(rule.code.to_owned(), value.deep_clone());
            }
        },
        PropertyKind::Passthrough => {
            if let Some(s) = statement {
                properties.insert(rule.code.to_owned(), s.deep_clone());
            }
        },
    }
}

/// The normalized attributes of a record of type `entity_type` with the claims `claims`.
///
/// The properties of the type are read in the order of `default_properties`; a type that the
/// table does not know has no attributes. With `process_images` the thumbnail addresses of
/// the record's images are handed back to be fetched, and no image is stored yet; without
/// it each image is stored as its thumbnail address.
pub fn extract_properties(
    entity_type: &str,
    claims: &JsonObject,
    process_images: bool,
    default_properties: &Vec<TypeRules>,
) -> (extraction: Extraction)
    ensures
        extraction.properties@ == extracted(
            rules_applied(rules_view(default_properties@), entity_type@),
            claims@,
            process_images,
        ),
        strings_view(extraction.image_requests@) == requested(
            rules_applied(rules_view(default_properties@), entity_type@),
            claims@,
            process_images,
        ),
{
    let mut properties = JsonObject::new();
    let mut image_requests: Vec<String> = Vec::new();
    let ghost applied = rules_applied(rules_view(default_properties@), entity_type@);
    match find_rules(default_properties, entity_type) {
        Some(rules) => {
            let mut i: usize = 0;
            assert(applied.take(0) =~= Seq::empty());
            assert(strings_view(image_requests@) =~= Seq::empty());
            while i < rules.len()
                invariant
                    i <= rules.len(),
                    applied == rule_views(rules@),
                    properties@ == extracted(applied.take(i as int), claims@, process_images),
                    strings_view(image_requests@) == requested(
                        applied.take(i as int),
                        claims@,
                        process_images,
                    ),
                decreases rules.len() - i,
            {
                apply_rule(&rules[i], claims, process_images, &mut properties, &mut image_requests);
                proof {
                    let next = applied.take(i + 1);
                    assert(next.drop_last() =~= applied.take(i as int));
                    assert(next.last() == rules@[i as int]@);
                }
                i += 1;
            }
            assert(applied.take(i as int) =~= applied);
        },
        None => {
            assert(strings_view(image_requests@) =~= Seq::empty());
        },
    }
    Extraction { properties, image_requests }
}

/// Stores under `image` what is kept of a fetched image, and leaves the attributes as they
/// are where nothing is kept.
pub fn store_image(properties: &mut JsonObject, kept: Option<String>)
    ensures
        final(properties)@ == (match kept {
            Some(text) => old(properties)@.insert(image_key(), JsonValue::Text(text@)),
            None => old(properties)@,
        }),
{
    if let Some(text) = kept {
        properties.insert("image".to_owned(), Json::Text(text));
    }
}

} // verus!
