use wikidata_extract::codec::{parse, to_binary, to_text};
use wikidata_extract::error::ProcessingError;
use wikidata_extract::json::{Json, JsonObject};

fn text(s: &str) -> Json {
    Json::Text(s.to_string())
}

#[test]
fn parse_reads_an_object() {
    let doc = parse("{\"id\":\"Q1\",\"n\":[1,2.5,null,true]}").expect("valid JSON");
    let id = doc.field("id").expect("field id");
    assert_eq!(id.as_text(), Some("Q1"));
    let items = doc.field("n").and_then(|n| n.as_array()).expect("array n");
    assert_eq!(items.len(), 4);
    assert!(matches!(items[2], Json::Null));
    assert!(matches!(items[3], Json::Bool(true)));
    assert_eq!(to_text(&doc).unwrap(), "{\"id\":\"Q1\",\"n\":[1,2.5,null,true]}");
}

#[test]
fn parse_rejects_malformed_text() {
    assert!(parse("{\"id\":").is_none());
    assert!(parse("").is_none());
    assert!(parse("{} trailing").is_none());
    assert!(matches!(parse("null"), Some(Json::Null)));
}

#[test]
fn parse_keeps_the_last_of_repeated_fields() {
    let doc = parse("{\"a\":1,\"a\":2}").expect("valid JSON");
    assert_eq!(to_text(&doc).unwrap(), "{\"a\":2}");
}

#[test]
fn text_of_an_object_has_its_fields_sorted_by_name() {
    let mut object = JsonObject::new();
    object.insert("b".to_string(), text("two"));
    object.insert("a".to_string(), text("one"));
    assert_eq!(to_text(&Json::Object(object)).unwrap(), "{\"a\":\"one\",\"b\":\"two\"}");
}

#[test]
fn insert_replaces_a_field_of_the_same_name() {
    let mut object = JsonObject::new();
    assert!(object.is_empty());
    object.insert("image".to_string(), text("first"));
    object.insert("other".to_string(), Json::Bool(false));
    object.insert("image".to_string(), text("second"));
    assert!(!object.is_empty());
    assert_eq!(object.fields.len(), 2);
    assert_eq!(object.get("image").and_then(|v| v.as_text()), Some("second"));
    assert!(matches!(object.get("other"), Some(Json::Bool(false))));
    assert!(object.get("missing").is_none());
    assert_eq!(object.position("image"), Some(0));
    assert_eq!(object.position("missing"), None);
}

#[test]
fn the_last_of_repeated_fields_counts() {
    let object = JsonObject {
        fields: vec![("k".to_string(), text("old")), ("k".to_string(), text("new"))],
    };
    assert_eq!(object.get("k").and_then(|v| v.as_text()), Some("new"));
    assert_eq!(object.position("k"), Some(1));
    assert_eq!(to_text(&Json::Object(object)).unwrap(), "{\"k\":\"new\"}");
}

#[test]
fn field_of_something_that_is_no_object_is_missing() {
    assert!(text("x").field("a").is_none());
    assert!(Json::Array(vec![]).field("a").is_none());
    assert!(Json::Null.as_text().is_none());
    assert!(text("x").as_array().is_none());
    assert!(text("x").as_object().is_none());
    assert!(Json::Object(JsonObject::new()).as_object().is_some());
}

#[test]
fn deep_clone_copies_every_level() {
    let doc = parse("{\"a\":[{\"b\":\"c\"},7,-3,1.5e3],\"d\":{\"e\":null}}").expect("valid JSON");
    let copy = doc.deep_clone();
    assert_eq!(to_text(&copy).unwrap(), to_text(&doc).unwrap());
    assert_eq!(to_text(&copy).unwrap(), "{\"a\":[{\"b\":\"c\"},7,-3,1500.0],\"d\":{\"e\":null}}");
}

#[test]
fn binary_encoding_is_message_pack() {
    let doc = parse("{\"Q1\":{\"label\":\"Ada\"}}").expect("valid JSON");
    let bytes = to_binary(&doc).unwrap();
    let mut expected: Vec<u8> = vec![0x81, 0xa2];
    expected.extend_from_slice(b"Q1");
    expected.extend_from_slice(&[0x81, 0xa5]);
    expected.extend_from_slice(b"label");
    expected.push(0xa3);
    expected.extend_from_slice(b"Ada");
    assert_eq!(bytes, expected);
    let back: serde_json::Value = rmp_serde::from_slice(&bytes).unwrap();
    assert_eq!(serde_json::to_string(&back).unwrap(), "{\"Q1\":{\"label\":\"Ada\"}}");
}

#[test]
fn deep_documents_are_written_in_both_encodings() {
    let mut doc = Json::Null;
    for _ in 0..100 {
        doc = Json::Array(vec![doc]);
    }
    let text = to_text(&doc).unwrap();
    assert_eq!(text, format!("{}null{}", "[".repeat(100), "]".repeat(100)));
    let bytes = to_binary(&doc).unwrap();
    let mut expected = vec![0x91u8; 100];
    expected.push(0xc0);
    assert_eq!(bytes, expected);
}

#[test]
fn errors_have_a_message() {
    assert_eq!(
        ProcessingError::BinaryEncoding.message(),
        "an entry could not be written as MessagePack"
    );
    assert_eq!(
        ProcessingError::JsonEncoding.message(),
        "an entry could not be written as JSON text"
    );
    assert_ne!(ProcessingError::JsonEncoding, ProcessingError::BinaryEncoding);
}
