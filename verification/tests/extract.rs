use wikidata_extract::codec::{parse, to_text};
use wikidata_extract::extract::{
    extract_properties, first_payload, first_statement_of, statement_payload, store_image,
    strip_plus,
};
use wikidata_extract::json::{Json, JsonObject};
use wikidata_extract::rules::{get_default_properties, rules_for_codes, TypeRules};

const EXAMPLE_THUMBNAIL: &str = "https://upload.wikimedia.org/wikipedia/commons/thumb/9/9a/\
                                 Example_File.jpg/64px-Example_File.jpg";

fn object(text: &str) -> JsonObject {
    match parse(text) {
        Some(Json::Object(object)) => object,
        _ => panic!("not an object: {}", text),
    }
}

fn statement(payload: &str) -> String {
    format!("[{{\"mainsnak\":{{\"datavalue\":{{\"value\":{}}}}}}}]", payload)
}

fn shown(object: &JsonObject) -> String {
    to_text(&Json::Object(object.deep_clone())).unwrap()
}

fn extracted(entity_type: &str, claims: &str) -> String {
    let extraction =
        extract_properties(entity_type, &object(claims), false, &get_default_properties());
    assert!(extraction.image_requests.is_empty());
    shown(&extraction.properties)
}

#[test]
fn date_loses_its_leading_plus_signs() {
    let claims = format!(
        "{{\"P569\":{},\"P570\":{}}}",
        statement("{\"time\":\"+1900-01-01T00:00:00Z\",\"precision\":11,\"calendarmodel\":\"x\"}"),
        statement("{\"time\":\"++-0044-03-15T00:00:00Z\"}")
    );
    assert_eq!(
        extracted("person", &claims),
        "{\"P569\":\"1900-01-01T00:00:00Z\",\"P570\":\"-0044-03-15T00:00:00Z\"}"
    );
}

#[test]
fn date_that_is_no_string_is_kept_empty() {
    let claims = format!("{{\"P569\":{}}}", statement("{\"time\":1900}"));
    assert_eq!(extracted("person", &claims), "{\"P569\":\"\"}");
}

#[test]
fn date_without_time_is_left_out() {
    let claims = format!("{{\"P569\":{}}}", statement("{\"precision\":11}"));
    assert_eq!(extracted("person", &claims), "{}");
    let claims = format!("{{\"P569\":{}}}", statement("\"+1900-01-01T00:00:00Z\""));
    assert_eq!(extracted("person", &claims), "{}");
}

#[test]
fn reference_keeps_the_identifier() {
    let claims = format!(
        "{{\"P27\":{},\"P106\":{},\"P39\":{}}}",
        statement("{\"id\":\"Q145\",\"numeric-id\":145}"),
        statement("{\"id\":42}"),
        statement("{\"numeric-id\":7}")
    );
    assert_eq!(extracted("person", &claims), "{\"P106\":42,\"P27\":\"Q145\"}");
}

#[test]
fn only_the_first_statement_is_read() {
    let claims = "{\"P27\":[{\"mainsnak\":{\"datavalue\":{\"value\":{\"id\":\"Q1\"}}}},\
                  {\"mainsnak\":{\"datavalue\":{\"value\":{\"id\":\"Q2\"}}}}]}";
    assert_eq!(extracted("person", claims), "{\"P27\":\"Q1\"}");
    let claims = "{\"P27\":[{\"mainsnak\":{}},\
                  {\"mainsnak\":{\"datavalue\":{\"value\":{\"id\":\"Q2\"}}}}]}";
    assert_eq!(extracted("person", claims), "{}");
}

#[test]
fn claims_without_statements_give_nothing() {
    assert_eq!(extracted("person", "{\"P27\":[]}"), "{}");
    assert_eq!(extracted("person", "{\"P27\":{\"mainsnak\":1}}"), "{}");
    assert_eq!(extracted("person", "{\"P27\":\"Q1\"}"), "{}");
    assert_eq!(extracted("person", "{}"), "{}");
}

#[test]
fn image_is_kept_as_its_thumbnail_address() {
    let claims = format!("{{\"P18\":{}}}", statement("\"Example File.jpg\""));
    assert_eq!(
        extracted("person", &claims),
        format!("{{\"image\":\"{}\"}}", EXAMPLE_THUMBNAIL)
    );
    let claims = format!("{{\"P18\":{}}}", statement("{\"id\":\"Q1\"}"));
    assert_eq!(extracted("person", &claims), "{}");
}

#[test]
fn a_later_image_replaces_an_earlier_one() {
    let claims = format!(
        "{{\"P154\":{},\"P18\":{}}}",
        statement("\"a.png\""),
        statement("\"Example File.jpg\"")
    );
    assert_eq!(
        extracted("organization", &claims),
        "{\"image\":\"https://upload.wikimedia.org/wikipedia/commons/thumb/3/32/a.png/64px-a.png\"}"
    );
}

#[test]
fn images_to_fetch_are_handed_back_in_order() {
    let claims = format!(
        "{{\"P154\":{},\"P18\":{},\"P17\":{}}}",
        statement("\"a.png\""),
        statement("\"Example File.jpg\""),
        statement("{\"id\":\"Q55\"}")
    );
    let extraction =
        extract_properties("organization", &object(&claims), true, &get_default_properties());
    assert_eq!(shown(&extraction.properties), "{\"P17\":\"Q55\"}");
    assert_eq!(
        extraction.image_requests,
        vec![
            EXAMPLE_THUMBNAIL,
            "https://upload.wikimedia.org/wikipedia/commons/thumb/3/32/a.png/64px-a.png"
        ]
    );
}

#[test]
fn text_keeps_the_text_alone() {
    let claims = format!(
        "{{\"P1449\":{},\"P1813\":{}}}",
        statement("{\"text\":\"Enchantress of Numbers\",\"language\":\"en\"}"),
        statement("{\"text\":\"short\"}")
    );
    assert_eq!(extracted("person", &claims), "{\"P1449\":\"Enchantress of Numbers\"}");
    let claims = format!("{{\"P1449\":{}}}", statement("{\"text\":5}"));
    assert_eq!(extracted("person", &claims), "{\"P1449\":\"\"}");
    let claims = format!("{{\"P1449\":{}}}", statement("{\"language\":\"en\"}"));
    assert_eq!(extracted("person", &claims), "{}");
}

#[test]
fn url_is_kept_as_it_stands() {
    let claims = format!(
        "{{\"P856\":{},\"P3220\":{}}}",
        statement("\"https://example.org/\""),
        statement("{\"id\":\"Q1\"}")
    );
    assert_eq!(extracted("organization", &claims), "{\"P856\":\"https://example.org/\"}");
}

#[test]
fn payload_of_a_location_is_kept_as_it_stands() {
    let claims = format!(
        "{{\"P159\":{}}}",
        statement("{\"entity-type\":\"item\",\"id\":\"Q84\",\"numeric-id\":84}")
    );
    assert_eq!(
        extracted("organization", &claims),
        "{\"P159\":{\"entity-type\":\"item\",\"id\":\"Q84\",\"numeric-id\":84}}"
    );
    assert_eq!(extracted("organization", "{\"P159\":[{\"mainsnak\":{}}]}"), "{}");
}

#[test]
fn unknown_type_has_no_attributes() {
    let claims = format!("{{\"P569\":{}}}", statement("{\"time\":\"+1900-01-01T00:00:00Z\"}"));
    assert_eq!(extracted("planet", &claims), "{}");
    assert_eq!(extracted("", &claims), "{}");
}

#[test]
fn a_table_of_ones_own_rules() {
    let table = vec![TypeRules {
        entity_type: "thing",
        rules: rules_for_codes(&vec!["P999", "P569", "P999"]),
    }];
    let claims = format!(
        "{{\"P999\":{},\"P569\":{}}}",
        statement("[1,2]"),
        statement("{\"time\":\"+2000\"}")
    );
    let extraction = extract_properties("thing", &object(&claims), false, &table);
    assert_eq!(
        shown(&extraction.properties),
        "{\"P569\":\"2000\",\"P999\":{\"mainsnak\":{\"datavalue\":{\"value\":[1,2]}}}}"
    );
    assert_eq!(extraction.properties.fields.len(), 2);
}

#[test]
fn a_property_without_a_kind_keeps_its_first_statement() {
    let table = vec![TypeRules { entity_type: "x", rules: rules_for_codes(&vec!["P999"]) }];
    let claims = object("{\"P999\":[{\"a\":1},{\"b\":2}]}");
    let extraction = extract_properties("x", &claims, false, &table);
    assert_eq!(shown(&extraction.properties), "{\"P999\":{\"a\":1}}");
    assert!(extraction.image_requests.is_empty());
    let fetching = extract_properties("x", &claims, true, &table);
    assert_eq!(shown(&fetching.properties), "{\"P999\":{\"a\":1}}");
    for (claims, expected) in [
        ("{\"P999\":[\"text\"]}", "{\"P999\":\"text\"}"),
        ("{\"P999\":[null,1]}", "{\"P999\":null}"),
        ("{\"P999\":[]}", "{}"),
        ("{\"P999\":{\"a\":1}}", "{}"),
        ("{\"P998\":[1]}", "{}"),
    ] {
        let extraction = extract_properties("x", &object(claims), false, &table);
        assert_eq!(shown(&extraction.properties), expected, "{}", claims);
    }
}

#[test]
fn payload_stands_at_mainsnak_datavalue_value() {
    let doc = parse("{\"mainsnak\":{\"datavalue\":{\"value\":\"x\"}}}").unwrap();
    assert_eq!(statement_payload(&doc).and_then(|v| v.as_text()), Some("x"));
    for text in [
        "{\"mainsnak\":{\"datavalue\":{}}}",
        "{\"mainsnak\":{}}",
        "{\"mainsnak\":[]}",
        "{}",
        "[]",
        "\"x\"",
    ] {
        assert!(statement_payload(&parse(text).unwrap()).is_none());
    }
    let claims = object(&format!("{{\"P996\":{}}}", statement("true")));
    assert!(matches!(first_payload(&claims, "P996"), Some(Json::Bool(true))));
    assert!(first_payload(&claims, "P997").is_none());
    let first = first_statement_of(&claims, "P996").expect("a statement");
    assert_eq!(to_text(first).unwrap(), "{\"mainsnak\":{\"datavalue\":{\"value\":true}}}");
    assert!(first_statement_of(&claims, "P997").is_none());
}

#[test]
fn strip_plus_removes_every_leading_plus() {
    assert_eq!(strip_plus("+1900"), "1900");
    assert_eq!(strip_plus("+++1+2+"), "1+2+");
    assert_eq!(strip_plus("-0044"), "-0044");
    assert_eq!(strip_plus("+"), "");
    assert_eq!(strip_plus(""), "");
}

#[test]
fn store_image_sets_or_leaves_the_image() {
    let mut properties = object("{\"image\":\"old\",\"P17\":\"Q1\"}");
    store_image(&mut properties, None);
    assert_eq!(shown(&properties), "{\"P17\":\"Q1\",\"image\":\"old\"}");
    store_image(&mut properties, Some("aGVsbG8=".to_string()));
    assert_eq!(shown(&properties), "{\"P17\":\"Q1\",\"image\":\"aGVsbG8=\"}");
    let mut empty = JsonObject::new();
    store_image(&mut empty, Some("x".to_string()));
    assert_eq!(shown(&empty), "{\"image\":\"x\"}");
}
