use wikidata_extract::batched_writer::{BatchedWriter, Flushed, JSON_LINES};
use wikidata_extract::codec::{parse, to_text};
use wikidata_extract::export::{finish_all, prepare_data_export, write_entity_data, Export};
use wikidata_extract::json::{Json, JsonObject};
use wikidata_extract::pipeline::{
    collect_aliases, decode_record, examine_document, examine_line, examine_record,
    is_marker_line, localized_text, matches_type, record_text_of, Config, Draft, LineOutcome,
};
use wikidata_extract::resolver::Cache;
use wikidata_extract::rules::{get_default_properties, get_entity_type_mappings};

fn config(types: &[&str]) -> Config {
    Config {
        entity_types: types.iter().map(|t| t.to_string()).collect(),
        lang: "en".to_string(),
        output_format: JSON_LINES.to_string(),
        output_dir: "out".to_string(),
        process_images: false,
    }
}

fn object(text: &str) -> JsonObject {
    match parse(text) {
        Some(Json::Object(object)) => object,
        _ => panic!("not an object: {}", text),
    }
}

fn shown(object: &JsonObject) -> String {
    to_text(&Json::Object(object.deep_clone())).unwrap()
}

fn drafts_of(line: &str, config: &Config) -> Vec<Draft> {
    match examine_line(line, config, &get_entity_type_mappings(), &get_default_properties()) {
        LineOutcome::Record(drafts) => drafts,
        other => panic!("no record: {:?}", other),
    }
}

fn instance_of(id: &str) -> String {
    format!("\"P31\":[{{\"mainsnak\":{{\"datavalue\":{{\"value\":{{\"id\":\"{}\"}}}}}}}}]", id)
}

fn ada() -> String {
    format!(
        "{{\"id\":\"Q1\",\"claims\":{{{},\"P569\":[{{\"mainsnak\":{{\"datavalue\":{{\"value\":\
         {{\"time\":\"+1900-01-01T00:00:00Z\",\"precision\":11}}}}}}}}]}},\
         \"labels\":{{\"en\":{{\"language\":\"en\",\"value\":\"Ada\"}}}},\
         \"descriptions\":{{}},\"aliases\":{{}}}}",
        instance_of("Q5")
    )
}

fn run(lines: &[String], config: &Config, batch_size: usize) -> (Vec<Flushed>, usize, usize) {
    let mappings = get_entity_type_mappings();
    let rules = get_default_properties();
    let cache = Cache::new();
    let mut writer =
        BatchedWriter::new(config.entity_types.clone(), config.output_format.clone(), batch_size);
    let mut flushes: Vec<Flushed> = Vec::new();
    let mut consumed = 0;
    let mut skipped = 0;
    for line in lines {
        let outcome = examine_line(line, config, &mappings, &rules);
        consumed += outcome.consumed_bytes(line);
        if outcome.is_skipped() {
            skipped += 1;
        }
        if let LineOutcome::Record(drafts) = outcome {
            for draft in drafts {
                assert!(draft.lookups(&cache).iter().all(|batch| !batch.is_empty()));
                let Export { entity_type, entity_id, used_names, kv_entry } = draft.finish(&cache);
                let written =
                    write_entity_data(&mut writer, &entity_type, &entity_id, used_names, kv_entry);
                assert!(written.failure.is_none());
                flushes.extend(written.flushed);
            }
        }
    }
    flushes.push(writer.finalize().unwrap().last);
    (flushes, consumed, skipped)
}

fn index_rows(flushes: &[Flushed], entity_type: &str) -> Vec<(String, String)> {
    let mut rows = Vec::new();
    for flushed in flushes {
        for sink in &flushed.index {
            if sink.entity_type == entity_type {
                rows.extend(sink.rows.clone());
            }
        }
    }
    rows
}

fn record_lines(flushes: &[Flushed]) -> Vec<String> {
    let mut lines = Vec::new();
    for flushed in flushes {
        let text = String::from_utf8(flushed.records.clone()).unwrap();
        lines.extend(text.lines().map(|l| l.to_string()));
    }
    lines
}

#[test]
fn blank_lines_and_brackets_are_markers() {
    for line in ["", " ", "\t", "  \t \r", "\u{a0}", "\u{2003}\u{3000}", "[", "]"] {
        assert!(is_marker_line(line), "{:?}", line);
        let outcome = examine_line(
            line,
            &config(&["person"]),
            &get_entity_type_mappings(),
            &get_default_properties(),
        );
        assert!(matches!(outcome, LineOutcome::Marker));
        assert_eq!(outcome.consumed_bytes(line), 0);
        assert!(!outcome.is_skipped());
    }
}

#[test]
fn other_lines_are_no_markers() {
    let lines =
        ["[ ", " [", "[]", "],", "[[", "{}", "x", " x ", ",", "\u{200b}", "[{\"id\":\"Q1\"}"];
    for line in lines {
        assert!(!is_marker_line(line), "{:?}", line);
    }
}

#[test]
fn markers_produce_no_output_and_count_for_nothing() {
    let lines: Vec<String> =
        ["", "[", "   ", "]", "\t"].iter().map(|l| l.to_string()).collect();
    let (flushes, consumed, skipped) = run(&lines, &config(&["person"]), 10);
    assert_eq!(consumed, 0);
    assert_eq!(skipped, 0);
    assert!(index_rows(&flushes, "person").is_empty());
    assert!(record_lines(&flushes).is_empty());
}

#[test]
fn commas_at_the_end_of_a_line_are_dropped() {
    assert_eq!(record_text_of("{\"id\":\"Q1\"},"), "{\"id\":\"Q1\"}");
    assert_eq!(record_text_of("{},,,"), "{}");
    assert_eq!(record_text_of("{}"), "{}");
    assert_eq!(record_text_of("{}, "), "{}, ");
    assert_eq!(record_text_of(",{},"), ",{}");
    assert_eq!(record_text_of(",,"), "");
    assert_eq!(record_text_of(""), "");
}

#[test]
fn malformed_lines_are_skipped_and_counted() {
    let cfg = config(&["person"]);
    for line in ["{", "{\"id\":\"Q1\"", "not json", "{}, ", "[1,2]", "\"Q1\"", "{}", "{\"id\":7}",
        "{\"id\":\"Q1\",\"claims\":[]}", "{\"id\":\"Q1\",\"labels\":\"x\"}", ","]
    {
        let outcome =
            examine_line(line, &cfg, &get_entity_type_mappings(), &get_default_properties());
        assert!(matches!(outcome, LineOutcome::Malformed), "{:?}", line);
        assert!(outcome.is_skipped());
        assert_eq!(outcome.consumed_bytes(line), line.len());
    }
}

#[test]
fn a_record_without_one_of_its_parts_gives_nothing() {
    let cfg = config(&["person"]);
    let whole = ada();
    assert_eq!(drafts_of(&whole, &cfg).len(), 1);
    for part in ["claims", "labels", "descriptions", "aliases"] {
        let mut doc = object(&whole);
        doc.fields.retain(|(name, _)| name != part);
        let line = shown(&doc);
        assert!(drafts_of(&line, &cfg).is_empty(), "{}", part);
        doc.insert(part.to_string(), Json::Null);
        let line = shown(&doc);
        assert!(drafts_of(&line, &cfg).is_empty(), "{} null", part);
        let (flushes, consumed, skipped) = run(&[line.clone()], &cfg, 10);
        assert!(index_rows(&flushes, "person").is_empty());
        assert!(record_lines(&flushes).is_empty());
        assert_eq!(consumed, line.len());
        assert_eq!(skipped, 0);
    }
    assert!(drafts_of("{\"id\":\"Q1\"}", &cfg).is_empty());
}

#[test]
fn a_record_without_a_label_in_the_language_gives_nothing() {
    let cfg = config(&["person"]);
    let line = ada().replace("\"en\":{\"language\"", "\"de\":{\"language\"");
    assert!(drafts_of(&line, &cfg).is_empty());
    let line = ada().replace("\"value\":\"Ada\"", "\"value\":5");
    assert!(drafts_of(&line, &cfg).is_empty());
}

#[test]
fn decode_record_reads_the_parts() {
    let doc = parse(&ada()).unwrap();
    let record = decode_record(&doc).expect("a record");
    assert_eq!(record.id, "Q1");
    assert!(record.claims.is_some());
    assert_eq!(localized_text(record.labels.unwrap(), "en"), Some("Ada"));
    assert_eq!(localized_text(record.labels.unwrap(), "fr"), None);
    assert!(record.descriptions.unwrap().is_empty());
    let doc = parse("{\"id\":\"Q2\",\"claims\":null,\"extra\":[1]}").unwrap();
    let record = decode_record(&doc).expect("a record");
    assert_eq!(record.id, "Q2");
    assert!(record.claims.is_none() && record.labels.is_none());
    assert!(record.descriptions.is_none() && record.aliases.is_none());
    assert!(examine_record(
        &record,
        &config(&["person"]),
        &get_entity_type_mappings(),
        &get_default_properties()
    )
    .is_empty());
    assert!(decode_record(&parse("{\"claims\":{}}").unwrap()).is_none());
    assert!(decode_record(&parse("{\"id\":null}").unwrap()).is_none());
    assert!(decode_record(&parse("{\"id\":\"Q1\",\"aliases\":7}").unwrap()).is_none());
    assert!(decode_record(&parse("[\"Q1\"]").unwrap()).is_none());
    let outcome = examine_document(
        &parse("7").unwrap(),
        &config(&[]),
        &get_entity_type_mappings(),
        &get_default_properties(),
    );
    assert!(matches!(outcome, LineOutcome::Malformed));
}

#[test]
fn aliases_leave_out_the_label() {
    let aliases = object(
        "{\"en\":[{\"value\":\"Countess\"},{\"value\":\"Ada\"},{\"language\":\"en\"},\
         {\"value\":7},\"x\",{\"value\":\"Countess\"}],\"de\":{\"value\":\"x\"}}",
    );
    assert_eq!(collect_aliases(&aliases, "en", "Ada"), vec!["Countess", "", "", "", "Countess"]);
    assert_eq!(collect_aliases(&aliases, "en", ""), vec!["Countess", "Ada", "Countess"]);
    assert!(collect_aliases(&aliases, "de", "Ada").is_empty());
    assert!(collect_aliases(&aliases, "fr", "Ada").is_empty());
}

#[test]
fn a_record_matches_when_one_statement_names_the_type() {
    let ids = vec!["Q331769", "Q9415"];
    let claims = object(&format!("{{{}}}", instance_of("Q9415")));
    assert!(matches_type(&claims, &ids));
    let claims = object(
        "{\"P31\":[{\"mainsnak\":{}},{\"mainsnak\":{\"datavalue\":{\"value\":{\"id\":7}}}},\
         {\"mainsnak\":{\"datavalue\":{\"value\":{\"id\":\"Q1\"}}}},\
         {\"mainsnak\":{\"datavalue\":{\"value\":{\"id\":\"Q331769\"}}}}]}",
    );
    assert!(matches_type(&claims, &ids));
    assert!(!matches_type(&claims, &vec!["Q5"]));
    assert!(!matches_type(&claims, &vec![]));
    assert!(!matches_type(&object("{\"P31\":[]}"), &ids));
    assert!(!matches_type(&object("{\"P31\":\"Q9415\"}"), &ids));
    let subclass = format!("{{{}}}", instance_of("Q9415").replace("P31", "P279"));
    assert!(!matches_type(&object(&subclass), &ids));
}

#[test]
fn a_record_is_drafted_once_for_each_type_that_it_belongs_to() {
    let line = ada().replace(
        "\"P31\":[",
        "\"P31\":[{\"mainsnak\":{\"datavalue\":{\"value\":{\"id\":\"Q1656682\"}}}},",
    );
    let drafts = drafts_of(&line, &config(&["event", "planet", "organization", "person"]));
    let types: Vec<&str> = drafts.iter().map(|d| d.entity_type.as_str()).collect();
    assert_eq!(types, vec!["event", "person"]);
    assert_eq!(shown(&drafts[0].properties), "{\"P31\":\"Q1656682\"}");
    assert_eq!(shown(&drafts[1].properties), "{\"P569\":\"1900-01-01T00:00:00Z\"}");
    assert!(drafts_of(&line, &config(&[])).is_empty());
    assert!(drafts_of(&line, &config(&["mood"])).is_empty());
}

#[test]
fn a_dump_of_three_lines_with_one_person() {
    let lines = vec!["[".to_string(), format!("{},", ada()), "]".to_string()];
    let (flushes, consumed, skipped) = run(&lines, &config(&["person"]), 10000);
    assert_eq!(index_rows(&flushes, "person"), vec![("Ada".to_string(), "Q1".to_string())]);
    let records = record_lines(&flushes);
    assert_eq!(
        records,
        vec!["{\"Q1\":{\"label\":\"Ada\",\"props\":{\"P569\":\"1900-01-01T00:00:00Z\"}}}"]
    );
    let entry = parse(&records[0]).unwrap();
    let birth = entry
        .field("Q1")
        .and_then(|e| e.field("props"))
        .and_then(|p| p.field("P569"))
        .and_then(|d| d.as_text());
    assert_eq!(birth, Some("1900-01-01T00:00:00Z"));
    assert_eq!(consumed, lines[1].len());
    assert_eq!(skipped, 0);
    assert_eq!(flushes.len(), 1);
}

#[test]
fn the_order_of_the_lines_does_not_change_what_is_written() {
    let mut lines: Vec<String> = vec!["[".to_string()];
    for n in 0..7 {
        let line = ada()
            .replace("\"id\":\"Q1\"", &format!("\"id\":\"Q{}\"", 100 + n))
            .replace("\"value\":\"Ada\"", &format!("\"value\":\"Name {}\"", n));
        lines.push(format!("{},", line));
    }
    lines.push("{ broken".to_string());
    lines.push("]".to_string());
    let cfg = config(&["person", "event"]);
    let (forward, consumed, skipped) = run(&lines, &cfg, 3);
    let mut reversed_lines = lines.clone();
    reversed_lines.reverse();
    let (backward, consumed_back, skipped_back) = run(&reversed_lines, &cfg, 3);
    assert_eq!(consumed, consumed_back);
    assert_eq!((skipped, skipped_back), (1, 1));
    let mut rows = index_rows(&forward, "person");
    let mut rows_back = index_rows(&backward, "person");
    assert_eq!(rows.len(), 7);
    assert_ne!(rows, rows_back);
    rows.sort();
    rows_back.sort();
    assert_eq!(rows, rows_back);
    let mut records = record_lines(&forward);
    let mut records_back = record_lines(&backward);
    assert_eq!(records.len(), 7);
    records.sort();
    records_back.sort();
    assert_eq!(records, records_back);
    assert!(index_rows(&forward, "event").is_empty());
}

#[test]
fn names_are_indexed_once_each() {
    let properties = object("{\"P1813\":\"AAL\",\"P1449\":\"Ada\",\"P27\":\"United Kingdom\"}");
    let aliases: Vec<String> =
        ["Countess", "AAL", "Countess", ""].iter().map(|a| a.to_string()).collect();
    let (names, entry) = prepare_data_export("Q7259", properties, "Ada", &aliases, "mathematician");
    assert_eq!(names, vec!["Ada", "AAL", "Countess", ""]);
    assert_eq!(
        to_text(&entry).unwrap(),
        "{\"Q7259\":{\"alias\":[\"Countess\",\"AAL\",\"Countess\",\"\"],\
         \"descr\":\"mathematician\",\"label\":\"Ada\",\
         \"props\":{\"P1449\":\"Ada\",\"P1813\":\"AAL\",\"P27\":\"United Kingdom\"}}}"
    );
}

#[test]
fn empty_parts_of_an_entry_are_left_out() {
    let (names, entry) = prepare_data_export("Q1", JsonObject::new(), "Ada", &vec![], "");
    assert_eq!(names, vec!["Ada"]);
    assert_eq!(to_text(&entry).unwrap(), "{\"Q1\":{\"label\":\"Ada\"}}");
    let properties = object("{\"P1813\":7,\"P1449\":{\"text\":\"x\"}}");
    let (names, entry) = prepare_data_export("Q1", properties, "", &vec![], "d");
    assert_eq!(names, vec![""]);
    assert_eq!(
        to_text(&entry).unwrap(),
        "{\"Q1\":{\"descr\":\"d\",\"label\":\"\",\
         \"props\":{\"P1449\":{\"text\":\"x\"},\"P1813\":7}}}"
    );
}

#[test]
fn a_draft_asks_for_what_the_cache_does_not_know() {
    let line = ada().replace(
        "\"P569\":[",
        "\"P27\":[{\"mainsnak\":{\"datavalue\":{\"value\":{\"id\":\"Q145\"}}}}],\"P569\":[",
    );
    let mut drafts = drafts_of(&line, &config(&["person"]));
    let draft = drafts.remove(0);
    let mut cache = Cache::new();
    assert_eq!(draft.lookups(&cache), vec![vec!["Q145".to_string()]]);
    cache.absorb(vec![("Q145".to_string(), "United Kingdom".to_string())]);
    assert!(draft.lookups(&cache).is_empty());
    let export = draft.finish(&cache);
    assert_eq!(export.entity_type, "person");
    assert_eq!(export.entity_id, "Q1");
    assert_eq!(export.used_names, vec!["Ada"]);
    assert_eq!(
        to_text(&export.kv_entry).unwrap(),
        "{\"Q1\":{\"label\":\"Ada\",\"props\":{\"P27\":\"United Kingdom\",\
         \"P569\":\"1900-01-01T00:00:00Z\"}}}"
    );
}

#[test]
fn a_draft_stores_what_is_kept_of_its_images() {
    let line = ada().replace(
        "\"P569\":[",
        "\"P18\":[{\"mainsnak\":{\"datavalue\":{\"value\":\"Example File.jpg\"}}}],\"P569\":[",
    );
    let mut cfg = config(&["person"]);
    cfg.process_images = true;
    let mut drafts = drafts_of(&line, &cfg);
    let mut draft = drafts.remove(0);
    assert_eq!(
        draft.image_requests,
        vec![
            "https://upload.wikimedia.org/wikipedia/commons/thumb/9/9a/Example_File.jpg/\
             64px-Example_File.jpg"
        ]
    );
    assert!(draft.properties.get("image").is_none());
    draft.store_image(None);
    assert!(draft.properties.get("image").is_none());
    draft.store_image(Some("aGVsbG8=".to_string()));
    assert_eq!(draft.properties.get("image").and_then(|v| v.as_text()), Some("aGVsbG8="));
}

#[test]
fn an_entity_is_handed_to_the_writer_name_by_name() {
    let mut writer = BatchedWriter::new(vec!["person".to_string()], JSON_LINES.to_string(), 2);
    let names = vec!["Ada".to_string(), "Countess".to_string()];
    let first = write_entity_data(&mut writer, "person", "Q1", names, parse("{\"Q1\":1}").unwrap());
    assert!(first.flushed.is_empty() && first.failure.is_none());
    assert_eq!(writer.pending_index_entries(), 2);
    assert_eq!(writer.pending_records(), 1);
    let entry = parse("{\"Q2\":2}").unwrap();
    let second = write_entity_data(&mut writer, "person", "Q2", vec!["Bob".to_string()], entry);
    assert!(second.failure.is_none());
    assert_eq!(second.flushed.len(), 1);
    let rows: Vec<(&str, &str)> = second.flushed[0].index[0]
        .rows
        .iter()
        .map(|(name, id)| (name.as_str(), id.as_str()))
        .collect();
    assert_eq!(rows, vec![("Ada", "Q1"), ("Countess", "Q1"), ("Bob", "Q2")]);
    assert_eq!(
        String::from_utf8(second.flushed[0].records.clone()).unwrap(),
        "{\"Q1\":1}\n{\"Q2\":2}\n"
    );
    assert_eq!(writer.pending_records(), 0);
}

#[test]
fn every_draft_of_a_line_is_finished() {
    let line = ada().replace(
        "\"P31\":[",
        "\"P31\":[{\"mainsnak\":{\"datavalue\":{\"value\":{\"id\":\"Q1656682\"}}}},",
    );
    let drafts = drafts_of(&line, &config(&["person", "event"]));
    let cache = Cache::load(&vec![("Q1656682".to_string(), "event".to_string())]);
    let exports = finish_all(&drafts, &cache);
    assert_eq!(exports.len(), 2);
    assert_eq!(exports[0].entity_type, "person");
    assert_eq!(exports[1].entity_type, "event");
    assert_eq!(
        to_text(&exports[1].kv_entry).unwrap(),
        "{\"Q1\":{\"label\":\"Ada\",\"props\":{\"P31\":\"event\"}}}"
    );
    assert!(finish_all(&vec![], &cache).is_empty());
}

fn person(n: usize, citizen_of: &str) -> String {
    ada()
        .replace("\"id\":\"Q1\"", &format!("\"id\":\"Q{}\"", 100 + n))
        .replace("\"value\":\"Ada\"", &format!("\"value\":\"Name {}\"", n))
        .replace(
            "\"P569\":[",
            &format!(
                "\"P27\":[{{\"mainsnak\":{{\"datavalue\":{{\"value\":{{\"id\":\"{}\"}}}}}}}}],\
                 \"P569\":[",
                citizen_of
            ),
        )
}

fn answer_of(id: &str) -> Option<(String, String)> {
    match id {
        "Q145" => Some((id.to_string(), "United Kingdom".to_string())),
        "Q30" => Some((id.to_string(), "United States".to_string())),
        _ => None,
    }
}

fn written_by(turns: &[&String], cache: &mut Cache) -> Vec<String> {
    let cfg = config(&["person"]);
    let mut written = Vec::new();
    for line in turns {
        for draft in drafts_of(line, &cfg) {
            for batch in draft.lookups(cache) {
                cache.absorb(batch.iter().filter_map(|id| answer_of(id)).collect());
            }
            let export = draft.finish(cache);
            written.push(format!("{:?} {}", export.used_names, to_text(&export.kv_entry).unwrap()));
        }
    }
    written
}

#[test]
fn many_workers_write_what_one_worker_writes() {
    let lines: Vec<String> = ["Q145", "Q30", "Q145", "Q999", "Q30", "Q145", "Q999"]
        .iter()
        .enumerate()
        .map(|(n, country)| person(n, country))
        .collect();
    let one: Vec<&String> = lines.iter().collect();
    let mut alone = written_by(&one, &mut Cache::new());
    assert_eq!(alone.len(), 7);
    assert!(alone[0].contains("\"P27\":\"United Kingdom\""));
    assert!(alone[3].contains("\"P27\":\"Q999\""));

    let mut shared_cache = Cache::new();
    let mut together = Vec::new();
    let shares: [Vec<&String>; 3] = [
        vec![&lines[5], &lines[1]],
        vec![&lines[6], &lines[0], &lines[3]],
        vec![&lines[4], &lines[2]],
    ];
    for round in 0..3 {
        for share in &shares {
            if let Some(line) = share.get(round) {
                together.extend(written_by(&[*line], &mut shared_cache));
            }
        }
    }
    assert_ne!(alone, together);
    alone.sort();
    together.sort();
    assert_eq!(alone, together);
    assert_eq!(shared_cache.len(), 2);
}
