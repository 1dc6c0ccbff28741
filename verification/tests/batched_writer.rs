use wikidata_extract::batched_writer::{
    line_bytes, store_extension, BatchedWriter, Flushed, JSON_LINES,
};
use wikidata_extract::codec::parse;
use wikidata_extract::json::Json;

fn entry(n: usize) -> Json {
    parse(&format!("{{\"Q{}\":{{\"label\":\"entity {}\"}}}}", n, n)).unwrap()
}

fn line(n: usize) -> String {
    format!("{{\"Q{}\":{{\"label\":\"entity {}\"}}}}\n", n, n)
}

fn lines(from: usize, to: usize) -> String {
    (from..to).map(line).collect()
}

fn writer(types: &[&str], format: &str, batch_size: usize) -> BatchedWriter {
    let types: Vec<String> = types.iter().map(|t| t.to_string()).collect();
    BatchedWriter::new(types, format.to_string(), batch_size)
}

fn rows(pairs: &[(&str, &str)]) -> Vec<(String, String)> {
    pairs.iter().map(|(a, b)| (a.to_string(), b.to_string())).collect()
}

fn text_of(flushed: &Flushed) -> String {
    String::from_utf8(flushed.records.clone()).unwrap()
}

#[test]
fn a_full_batch_flushes_exactly_once() {
    let batch_size = 4;
    let mut w = writer(&["person"], JSON_LINES, batch_size);
    let mut flushes: Vec<Flushed> = Vec::new();
    for n in 0..batch_size {
        assert_eq!(w.pending_records(), n);
        if let Some(flushed) = w.add_kv_entry(entry(n)).unwrap() {
            assert_eq!(n, batch_size - 1);
            flushes.push(flushed);
        }
    }
    assert_eq!(flushes.len(), 1);
    assert_eq!(flushes[0].record_count, batch_size);
    assert_eq!(text_of(&flushes[0]), lines(0, batch_size));
    assert_eq!(w.pending_records(), 0);
    let last = w.finalize().unwrap().last;
    assert_eq!(last.record_count, 0);
    assert!(last.records.is_empty());
}

#[test]
fn one_entry_fewer_waits_for_finalize() {
    let batch_size = 4;
    let mut w = writer(&["person"], JSON_LINES, batch_size);
    for n in 0..batch_size - 1 {
        assert!(w.add_kv_entry(entry(n)).unwrap().is_none());
    }
    assert_eq!(w.pending_records(), batch_size - 1);
    let finalized = w.finalize().unwrap();
    assert_eq!(finalized.last.record_count, batch_size - 1);
    assert_eq!(text_of(&finalized.last), lines(0, batch_size - 1));
    assert_eq!(finalized.sinks, vec!["person"]);
    assert_eq!(w.pending_records(), 0);
    let again = w.finalize().unwrap();
    assert_eq!(again.last.record_count, 0);
    assert!(again.last.records.is_empty());
}

#[test]
fn every_full_batch_flushes() {
    let mut w = writer(&[], JSON_LINES, 3);
    let mut texts: Vec<String> = Vec::new();
    for n in 0..10 {
        if let Some(flushed) = w.add_kv_entry(entry(n)).unwrap() {
            texts.push(text_of(&flushed));
        }
    }
    assert_eq!(texts, vec![lines(0, 3), lines(3, 6), lines(6, 9)]);
    assert_eq!(text_of(&w.flush().unwrap()), lines(9, 10));
}

#[test]
fn a_batch_size_of_one_flushes_every_entry() {
    let mut w = writer(&[], JSON_LINES, 1);
    for n in 0..3 {
        let flushed = w.add_kv_entry(entry(n)).unwrap().expect("a flush");
        assert_eq!(text_of(&flushed), line(n));
    }
}

#[test]
fn a_batch_size_of_zero_flushes_on_every_entry() {
    let mut w = writer(&["person"], JSON_LINES, 0);
    let flushed = w
        .add_csv_entry("person".to_string(), ("Ada".to_string(), "Q1".to_string()))
        .unwrap()
        .expect("a flush");
    assert_eq!(flushed.index[0].rows, rows(&[("Ada", "Q1")]));
    assert_eq!(flushed.record_count, 0);
    let flushed = w.add_kv_entry(entry(1)).unwrap().expect("a flush");
    assert_eq!(text_of(&flushed), line(1));
}

#[test]
fn index_rows_leave_by_sink_in_the_order_of_arrival() {
    let mut w = writer(&["person", "event"], JSON_LINES, 100);
    for (entity_type, name, id) in [
        ("person", "Ada", "Q1"),
        ("event", "Congress", "Q2"),
        ("person", "Lovelace", "Q1"),
        ("planet", "Mars", "Q3"),
        ("person", "Ada", "Q1"),
    ] {
        let r = w.add_csv_entry(entity_type.to_string(), (name.to_string(), id.to_string()));
        assert!(r.unwrap().is_none());
    }
    assert_eq!(w.pending_index_entries(), 5);
    let flushed = w.flush().unwrap();
    assert_eq!(flushed.index.len(), 2);
    assert_eq!(flushed.index[0].entity_type, "person");
    assert_eq!(flushed.index[0].rows, rows(&[("Ada", "Q1"), ("Lovelace", "Q1"), ("Ada", "Q1")]));
    assert_eq!(flushed.index[1].entity_type, "event");
    assert_eq!(flushed.index[1].rows, rows(&[("Congress", "Q2")]));
    assert!(flushed.records.is_empty());
    assert_eq!(w.pending_index_entries(), 0);
    let again = w.flush().unwrap();
    assert!(again.index[0].rows.is_empty());
    assert!(again.index[1].rows.is_empty());
}

#[test]
fn an_index_entry_flushes_only_when_the_records_are_full() {
    let mut w = writer(&["person"], JSON_LINES, 2);
    for n in 0..5 {
        let r = w.add_csv_entry("person".to_string(), (format!("name {}", n), "Q1".to_string()));
        assert!(r.unwrap().is_none());
    }
    assert!(w.add_kv_entry(entry(0)).unwrap().is_none());
    let flushed = w.add_kv_entry(entry(1)).unwrap().expect("a flush");
    assert_eq!(flushed.index[0].rows.len(), 5);
    assert_eq!(flushed.record_count, 2);
}

#[test]
fn a_sink_is_named_once() {
    let mut w = writer(&["person", "event", "person"], JSON_LINES, 10);
    let finalized = w.finalize().unwrap();
    assert_eq!(finalized.sinks, vec!["person", "event"]);
    assert_eq!(finalized.last.index.len(), 2);
}

#[test]
fn any_other_format_is_message_pack() {
    for format in ["MessagePack", "msgpack", "", "jsonlines"] {
        let mut w = writer(&[], format, 10);
        assert!(w.add_kv_entry(entry(1)).unwrap().is_none());
        assert!(w.add_kv_entry(entry(2)).unwrap().is_none());
        let flushed = w.flush().unwrap();
        assert_eq!(flushed.record_count, 2);
        let mut rest: &[u8] = &flushed.records;
        let first: serde_json::Value = rmp_serde::decode::from_read(&mut rest).unwrap();
        let second: serde_json::Value = rmp_serde::decode::from_read(&mut rest).unwrap();
        assert!(rest.is_empty());
        assert_eq!(serde_json::to_string(&first).unwrap(), line(1).trim_end());
        assert_eq!(serde_json::to_string(&second).unwrap(), line(2).trim_end());
    }
}

#[test]
fn text_entries_are_written_as_utf8() {
    let mut w = writer(&[], JSON_LINES, 1);
    let doc = parse("{\"Q1\":{\"label\":\"Zürich – 東京\"}}").unwrap();
    let flushed = w.add_kv_entry(doc).unwrap().expect("a flush");
    assert_eq!(text_of(&flushed), "{\"Q1\":{\"label\":\"Zürich – 東京\"}}\n");
}

#[test]
fn the_store_is_named_after_its_format() {
    assert_eq!(store_extension("JSONLines"), "jsonl");
    assert_eq!(store_extension(JSON_LINES), "jsonl");
    for format in ["MessagePack", "msgpack", "jsonlines", ""] {
        assert_eq!(store_extension(format), "msgpack");
    }
}

#[test]
fn a_line_ends_with_a_line_feed() {
    assert_eq!(line_bytes("{}"), b"{}\n".to_vec());
    assert_eq!(line_bytes(""), vec![b'\n']);
    assert_eq!(line_bytes("\u{e9}"), vec![0xc3, 0xa9, b'\n']);
}

#[test]
fn the_order_of_the_entries_does_not_change_what_leaves() {
    let steps: Vec<(Option<(&str, &str, &str)>, usize)> = vec![
        (Some(("person", "Ada", "Q1")), 0),
        (None, 1),
        (Some(("event", "Congress", "Q2")), 0),
        (None, 2),
        (Some(("person", "Bob", "Q3")), 0),
        (None, 3),
        (Some(("planet", "Mars", "Q4")), 0),
    ];
    let leave = |order: &[usize]| -> (Vec<(String, String)>, Vec<(String, String)>, Vec<String>) {
        let mut w = writer(&["person", "event"], JSON_LINES, 2);
        let mut flushes: Vec<Flushed> = Vec::new();
        for at in order {
            let flushed = match steps[*at] {
                (Some((entity_type, name, id)), _) => w
                    .add_csv_entry(entity_type.to_string(), (name.to_string(), id.to_string()))
                    .unwrap(),
                (None, n) => w.add_kv_entry(entry(n)).unwrap(),
            };
            flushes.extend(flushed);
        }
        flushes.push(w.finalize().unwrap().last);
        let mut people = Vec::new();
        let mut events = Vec::new();
        let mut records = Vec::new();
        for flushed in &flushes {
            people.extend(flushed.index[0].rows.clone());
            events.extend(flushed.index[1].rows.clone());
            records.extend(text_of(flushed).lines().map(|l| l.to_string()));
        }
        people.sort();
        events.sort();
        records.sort();
        (people, events, records)
    };
    let forward = leave(&[0, 1, 2, 3, 4, 5, 6]);
    assert_eq!(forward.0, rows(&[("Ada", "Q1"), ("Bob", "Q3")]));
    assert_eq!(forward.1, rows(&[("Congress", "Q2")]));
    assert_eq!(forward.2.len(), 3);
    assert_eq!(leave(&[6, 5, 4, 3, 2, 1, 0]), forward);
    assert_eq!(leave(&[1, 3, 5, 0, 2, 4, 6]), forward);
    assert_eq!(leave(&[4, 0, 6, 2, 5, 1, 3]), forward);
}
