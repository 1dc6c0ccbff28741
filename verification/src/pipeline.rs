//! The decisions of the pipeline, line by line: which lines are skipped, which hold a record,
//! which entity types a record belongs to, and what is written for it.
//!
//! Reading the dump, looking identifiers up and writing the sinks are the caller's part. It
//! hands each line to `examine_line`, resolves the drafts that come back, and hands the
//! finished entries to the writer.

use crate::codec::{parse, parsed};
use crate::extract::{
    extract_properties, extracted, payload, requested, rules_applied, statement_payload,
};
use crate::json::{field_of, items_view, Json, JsonObject, JsonValue};
use crate::rules::{
    find_mapping, ids_of_type, mappings_view, rules_view, strs_view, PropertyKind, TypeMapping,
    TypeRules,
};
use crate::text::{
    char_is_whitespace, from_chars, is_blank, is_whitespace, lemma_trailing_run_is, str_eq,
    strings_view, strip_trailing, to_chars,
};
use vstd::prelude::*;

verus! {

/// What a run is asked to do.
#[derive(Debug)]
pub struct Config {
    /// The entity types to extract, in the order in which a record is tried against them.
    pub entity_types: Vec<String>,
    /// The language of labels, descriptions and aliases.
    pub lang: String,
    /// The encoding of the key-value store.
    pub output_format: String,
    /// The directory of the sinks.
    pub output_dir: String,
    /// Whether images are fetched and stored, in place of their thumbnail addresses.
    pub process_images: bool,
}

/// Whether a line holds no record: it is blank, or it is one of the two brackets that
/// enclose the records of a dump.
pub open spec fn is_marker(line: Seq<char>) -> bool {
    is_blank(line) || line == seq!['['] || line == seq![']']
}

/// The text of the record on a line: the line without the commas at its end.
pub open spec fn record_text(line: Seq<char>) -> Seq<char> {
    strip_trailing(line, ',')
}

/// Whether `line` holds no record.
pub fn is_marker_line(line: &str) -> (marker: bool)
    ensures
        marker == is_marker(line@),
{
    let chars = to_chars(line);
    if chars.len() == 1 && (chars[0] == '[' || chars[0] == ']') {
        assert(line@ =~= seq![chars@[0]]);
        return true;
    }
    let mut i: usize = 0;
    while i < chars.len()
        invariant
            i <= chars.len(),
            chars@ == line@,
            !(chars@.len() == 1 && (chars@[0] == '[' || chars@[0] == ']')),
            forall|j: int| 0 <= j < i ==> is_whitespace(#[trigger] chars@[j]),
        decreases chars.len() - i,
    {
        if !char_is_whitespace(chars[i]) {
            proof {
                assert(!is_whitespace(line@[i as int]));
                assert(!is_blank(line@));
                if line@ == seq!['['] || line@ == seq![']'] {
                    assert(line@.len() == 1);
                    assert(line@[0] == '[' || line@[0] == ']');
                }
            }
            return false;
        }
        i += 1;
    }
    true
}

/// The text of the record on `line`.
pub fn record_text_of(line: &str) -> (text: String)
    ensures
        text@ == record_text(line@),
{
    let chars = to_chars(line);
    let mut end: usize = chars.len();
    while end > 0 && chars[end - 1] == ','
        invariant
            end <= chars.len(),
            forall|j: int| end <= j < chars.len() ==> chars@[j] == ',',
        decreases end,
    {
        end -= 1;
    }
    proof {
        lemma_trailing_run_is(chars@, ',', (chars.len() - end) as nat);
    }
    from_chars(&chars, 0, end)
}

/// A record of the dump: its identifier and its four parts, each of which may be missing.
#[derive(Debug)]
pub struct Record<'a> {
    pub id: &'a str,
    pub claims: Option<&'a JsonObject>,
    pub labels: Option<&'a JsonObject>,
    pub descriptions: Option<&'a JsonObject>,
    pub aliases: Option<&'a JsonObject>,
}

/// The contents of a record.
pub ghost struct RecordView {
    pub id: Seq<char>,
    pub claims: Option<Map<Seq<char>, JsonValue>>,
    pub labels: Option<Map<Seq<char>, JsonValue>>,
    pub descriptions: Option<Map<Seq<char>, JsonValue>>,
    pub aliases: Option<Map<Seq<char>, JsonValue>>,
}

/// The contents of an object that may be missing.
pub open spec fn object_view(object: Option<&JsonObject>) -> Option<Map<Seq<char>, JsonValue>> {
    match object {
        Some(o) => Some(o@),
        None => None,
    }
}

impl<'a> View for Record<'a> {
    type V = RecordView;

    open spec fn view(&self) -> RecordView {
        RecordView {
            id: self.id@,
            claims: object_view(self.claims),
            labels: object_view(self.labels),
            descriptions: object_view(self.descriptions),
            aliases: object_view(self.aliases),
        }
    }
}

/// A part of a record: the object under `name`. The part is missing where the document has
/// no such field or has `null` there. The outer `None` says that the field holds something
/// else, which no record does.
pub open spec fn part_of(document: JsonValue, name: Seq<char>) -> Option<
    Option<Map<Seq<char>, JsonValue>>,
> {
    match document.field(name) {
        None => Some(None),
        Some(JsonValue::Null) => Some(None),
        Some(JsonValue::Object(fields)) => Some(Some(fields)),
        Some(_) => None,
    }
}

/// The record that a document holds: an object with a string under `id` whose four parts
/// are objects where they are there. `None` for every other document.
pub open spec fn decoded(document: JsonValue) -> Option<RecordView> {
    match (
        document.field("id"@),
        part_of(document, "claims"@),
        part_of(document, "labels"@),
        part_of(document, "descriptions"@),
        part_of(document, "aliases"@),
    ) {
        (
            Some(JsonValue::Text(id)),
            Some(claims),
            Some(labels),
            Some(descriptions),
            Some(aliases),
        ) => Some(RecordView { id, claims, labels, descriptions, aliases }),
        _ => None,
    }
}

/// The contents of a record that may be missing.
pub open spec fn record_view(record: Option<Record>) -> Option<RecordView> {
    match record {
        Some(r) => Some(r@),
        None => None,
    }
}

fn part<'a>(document: &'a Json, name: &str) -> (r: Option<Option<&'a JsonObject>>)
    ensures
        match r {
            Some(object) => part_of(document@, name@) == Some(object_view(object)),
            None => part_of(document@, name@) is None,
        },
{
    match document.field(name) {
        None => Some(None),
        Some(value) => match value {
            Json::Null => Some(None),
            Json::Object(object) => Some(Some(object)),
            _ => None,
        },
    }
}

/// The record that `document` holds.
pub fn decode_record<'a>(document: &'a Json) -> (record: Option<Record<'a>>)
    ensures
        record_view(record) == decoded(document@),
{
    let id = match document.field("id") {
        Some(value) => match value.as_text() {
            Some(id) => id,
            None => {
                return None;
            },
        },
        None => {
            return None;
        },
    };
    let claims = match part(document, "claims") {
        Some(p) => p,
        None => {
            return None;
        },
    };
    let labels = match part(document, "labels") {
        Some(p) => p,
        None => {
            return None;
        },
    };
    let descriptions = match part(document, "descriptions") {
        Some(p) => p,
        None => {
            return None;
        },
    };
    let aliases = match part(document, "aliases") {
        Some(p) => p,
        None => {
            return None;
        },
    };
    Some(Record { id, claims, labels, descriptions, aliases })
}

/// The text that `texts` holds for the language `lang`: the string under `value` of the
/// object under `lang`.
pub open spec fn localized(texts: Map<Seq<char>, JsonValue>, lang: Seq<char>) -> Option<Seq<char>> {
    if texts.contains_key(lang) {
        match texts[lang].field("value"@) {
            Some(JsonValue::Text(text)) => Some(text),
            _ => None,
        }
    } else {
        None
    }
}

/// The text that `texts` holds for the language `lang`.
pub fn localized_text<'a>(texts: &'a JsonObject, lang: &str) -> (text: Option<&'a str>)
    ensures
        match text {
            Some(t) => localized(texts@, lang@) == Some(t@),
            None => localized(texts@, lang@) is None,
        },
{
    match texts.get(lang) {
        Some(entry) => match entry.field("value") {
            Some(value) => value.as_text(),
            None => None,
        },
        None => None,
    }
}

/// The name that an alias entry gives: the string under `value`, or the empty name.
pub open spec fn alias_name(entry: JsonValue) -> Seq<char> {
    match entry.field("value"@) {
        Some(JsonValue::Text(text)) => text,
        _ => Seq::empty(),
    }
}

/// The names that the alias entries `entries` give, in order, without those equal to
/// `label`.
pub open spec fn alias_names(entries: Seq<JsonValue>, label: Seq<char>) -> Seq<Seq<char>>
    decreases entries.len(),
{
    if entries.len() == 0 {
        Seq::empty()
    } else {
        let before = alias_names(entries.drop_last(), label);
        let name = alias_name(entries.last());
        if name == label {
            before
        } else {
            before.push(name)
        }
    }
}

/// The aliases of a record in the language `lang`: the names of the entries of the array
/// under `lang`, without the label. None where there is no such array.
pub open spec fn aliases_of(
    aliases: Map<Seq<char>, JsonValue>,
    lang: Seq<char>,
    label: Seq<char>,
) -> Seq<Seq<char>> {
    if aliases.contains_key(lang) {
        match aliases[lang] {
            JsonValue::Array(entries) => alias_names(entries, label),
            _ => Seq::empty(),
        }
    } else {
        Seq::empty()
    }
}

/// The aliases of a record in the language `lang`, without `label`.
pub fn collect_aliases(aliases: &JsonObject, lang: &str, label: &str) -> (names: Vec<String>)
    ensures
        strings_view(names@) == aliases_of(aliases@, lang@, label@),
{
    let mut names: Vec<String> = Vec::new();
    assert(strings_view(names@) =~= Seq::<Seq<char>>::empty());
    let entries = match aliases.get(lang) {
        Some(value) => match value.as_array() {
            Some(entries) => entries,
            None => {
                return names;
            },
        },
        None => {
            return names;
        },
    };
    let ghost all = items_view(entries@);
    let mut i: usize = 0;
    assert(all.take(0) =~= Seq::<JsonValue>::empty());
    while i < entries.len()
        invariant
            i <= entries.len(),
            all == items_view(entries@),
            strings_view(names@) == alias_names(all.take(i as int), label@),
        decreases entries.len() - i,
    {
        let ghost before = strings_view(names@);
        proof {
            let next = all.take(i + 1);
            assert(next.drop_last() =~= all.take(i as int));
            assert(next.last() == entries@[i as int]@);
        }
        let name: &str = match entries[i].field("value") {
            Some(value) => match value.as_text() {
                Some(text) => text,
                None => "",
            },
            None => "",
        };
        proof {
            reveal_strlit("");
            assert(""@ =~= Seq::<char>::empty());
        }
        if !str_eq(name, label) {
            names.push(name.to_owned());
            assert(strings_view(names@) =~= before.push(name@));
        }
        i += 1;
    }
    assert(all.take(i as int) =~= all);
    names
}

/// Whether a statement names one of the identifiers `ids`: whether the string under `id` of
/// its payload is among them.
pub open spec fn names_one_of(statement: JsonValue, ids: Seq<Seq<char>>) -> bool {
    match field_of(payload(statement), "id"@) {
        Some(JsonValue::Text(id)) => ids.contains(id),
        _ => false,
    }
}

/// Whether a record with the claims `claims` is an instance of one of `ids`: whether one of
/// the statements of its property `P31` names one of them.
pub open spec fn is_instance_of(claims: Map<Seq<char>, JsonValue>, ids: Seq<Seq<char>>) -> bool {
    claims.contains_key("P31"@) && match claims["P31"@] {
        JsonValue::Array(statements) => one_names_one_of(statements, ids),
        _ => false,
    }
}

/// Whether one of `statements` names one of the identifiers `ids`.
pub open spec fn one_names_one_of(statements: Seq<JsonValue>, ids: Seq<Seq<char>>) -> bool {
    exists|i: int| 0 <= i < statements.len() && #[trigger] names_one_of(statements[i], ids)
}

fn contains_id(ids: &Vec<&'static str>, id: &str) -> (found: bool)
    ensures
        found == strs_view(ids@).contains(id@),
{
    let ghost all = strs_view(ids@);
    let mut i: usize = 0;
    while i < ids.len()
        invariant
            i <= ids.len(),
            all == strs_view(ids@),
            forall|j: int| 0 <= j < i ==> all[j] != id@,
        decreases ids.len() - i,
    {
        if str_eq(ids[i], id) {
            assert(all[i as int] == id@);
            return true;
        }
        i += 1;
    }
    false
}

/// Whether a record with the claims `claims` is an instance of one of `ids`.
pub fn matches_type(claims: &JsonObject, ids: &Vec<&'static str>) -> (matched: bool)
    ensures
        matched == is_instance_of(claims@, strs_view(ids@)),
{
    let ghost all = strs_view(ids@);
    let statements = match claims.get("P31") {
        Some(value) => match value.as_array() {
            Some(statements) => statements,
            None => {
                return false;
            },
        },
        None => {
            return false;
        },
    };
    let ghost views = items_view(statements@);
    let mut i: usize = 0;
    while i < statements.len()
        invariant
            i <= statements.len(),
            views == items_view(statements@),
            all == strs_view(ids@),
            claims@.contains_key("P31"@),
            claims@["P31"@] == JsonValue::Array(views),
            forall|j: int| 0 <= j < i ==> !#[trigger] names_one_of(views[j], all),
        decreases statements.len() - i,
    {
        assert(views[i as int] == statements@[i as int]@);
        let named = match statement_payload(&statements[i]) {
            Some(value) => match value.field("id") {
                Some(id) => match id.as_text() {
                    Some(text) => contains_id(ids, text),
                    None => false,
                },
                None => false,
            },
            None => false,
        };
        if named {
            assert(names_one_of(views[i as int], all));
            return true;
        }
        i += 1;
    }
    false
}

/// What is known of a record for one entity type before its identifiers are resolved.
#[derive(Debug)]
pub struct Draft {
    pub entity_type: String,
    pub entity_id: String,
    pub label: String,
    pub description: String,
    pub aliases: Vec<String>,
    /// The normalized attributes, identifiers not yet replaced by labels.
    pub properties: JsonObject,
    /// The thumbnail addresses of the images to fetch, in the order in which what comes
    /// back is to be stored.
    pub image_requests: Vec<String>,
}

/// The contents of a draft.
pub ghost struct DraftView {
    pub entity_type: Seq<char>,
    pub entity_id: Seq<char>,
    pub label: Seq<char>,
    pub description: Seq<char>,
    pub aliases: Seq<Seq<char>>,
    pub properties: Map<Seq<char>, JsonValue>,
    pub image_requests: Seq<Seq<char>>,
}

impl View for Draft {
    type V = DraftView;

    open spec fn view(&self) -> DraftView {
        DraftView {
            entity_type: self.entity_type@,
            entity_id: self.entity_id@,
            label: self.label@,
            description: self.description@,
            aliases: strings_view(self.aliases@),
            properties: self.properties@,
            image_requests: strings_view(self.image_requests@),
        }
    }
}

/// The contents of a list of drafts.
pub open spec fn drafts_view(drafts: Seq<Draft>) -> Seq<DraftView> {
    Seq::new(drafts.len(), |i: int| drafts[i]@)
}

/// What the examination of a record depends on besides the record.
pub ghost struct Settings {
    pub entity_types: Seq<Seq<char>>,
    pub lang: Seq<char>,
    pub process_images: bool,
    pub mappings: Seq<(Seq<char>, Seq<Seq<char>>)>,
    pub rules: Seq<(Seq<char>, Seq<(Seq<char>, PropertyKind)>)>,
}

/// The settings that a configuration and the two rule tables make.
pub open spec fn settings_of(
    config: &Config,
    mappings: &Vec<TypeMapping>,
    default_properties: &Vec<TypeRules>,
) -> Settings {
    Settings {
        entity_types: strings_view(config.entity_types@),
        lang: config.lang@,
        process_images: config.process_images,
        mappings: mappings_view(mappings@),
        rules: rules_view(default_properties@),
    }
}

/// The description of a record: its text in the language, or the empty text.
pub open spec fn description_of(
    descriptions: Map<Seq<char>, JsonValue>,
    lang: Seq<char>,
) -> Seq<char> {
    match localized(descriptions, lang) {
        Some(text) => text,
        None => Seq::empty(),
    }
}

/// Whether a record with the claims `claims` belongs to `entity_type`: the type has a
/// mapping, and the record is an instance of one of its identifiers.
pub open spec fn belongs_to(
    claims: Map<Seq<char>, JsonValue>,
    entity_type: Seq<char>,
    settings: Settings,
) -> bool {
    match ids_of_type(settings.mappings, entity_type) {
        Some(ids) => is_instance_of(claims, ids),
        None => false,
    }
}

/// The draft of a record for `entity_type`.
pub open spec fn draft_of(
    id: Seq<char>,
    claims: Map<Seq<char>, JsonValue>,
    label: Seq<char>,
    description: Seq<char>,
    aliases: Seq<Seq<char>>,
    entity_type: Seq<char>,
    settings: Settings,
) -> DraftView {
    DraftView {
        entity_type,
        entity_id: id,
        label,
        description,
        aliases,
        properties: extracted(
            rules_applied(settings.rules, entity_type),
            claims,
            settings.process_images,
        ),
        image_requests: requested(
            rules_applied(settings.rules, entity_type),
            claims,
            settings.process_images,
        ),
    }
}

/// The drafts of a record for the entity types `types`: one for each type that the record
/// belongs to, in the order of the types.
pub open spec fn drafts_for(
    types: Seq<Seq<char>>,
    id: Seq<char>,
    claims: Map<Seq<char>, JsonValue>,
    label: Seq<char>,
    description: Seq<char>,
    aliases: Seq<Seq<char>>,
    settings: Settings,
) -> Seq<DraftView>
    decreases types.len(),
{
    if types.len() == 0 {
        Seq::empty()
    } else {
        let before = drafts_for(
            types.drop_last(),
            id,
            claims,
            label,
            description,
            aliases,
            settings,
        );
        if belongs_to(claims, types.last(), settings) {
            before.push(draft_of(id, claims, label, description, aliases, types.last(), settings))
        } else {
            before
        }
    }
}

/// The drafts of a record: none where one of its four parts is missing or where it has no
/// label in the language, else one for each configured entity type that it belongs to.
pub open spec fn drafts_of_record(record: RecordView, settings: Settings) -> Seq<DraftView> {
    match (record.claims, record.labels, record.descriptions, record.aliases) {
        (Some(claims), Some(labels), Some(descriptions), Some(aliases)) => match localized(
            labels,
            settings.lang,
        ) {
            Some(label) => drafts_for(
                settings.entity_types,
                record.id,
                claims,
                label,
                description_of(descriptions, settings.lang),
                aliases_of(aliases, settings.lang, label),
                settings,
            ),
            None => Seq::empty(),
        },
        _ => Seq::empty(),
    }
}

/// What became of a line.
#[derive(Debug)]
pub enum LineOutcome {
    /// The line holds no record: it is blank or a bracket. Nothing is counted for it.
    Marker,
    /// The line does not hold a record that can be read. It is skipped.
    Malformed,
    /// The line holds a record, with these drafts.
    Record(Vec<Draft>),
}

/// The contents of what became of a line.
pub ghost enum LineView {
    Marker,
    Malformed,
    Record(Seq<DraftView>),
}

impl LineView {
    /// The drafts that the line gives: what is written comes from these alone.
    pub open spec fn drafts(self) -> Seq<DraftView> {
        match self {
            LineView::Record(drafts) => drafts,
            _ => Seq::empty(),
        }
    }

    /// The number of bytes that the line adds to the progress of the run.
    pub open spec fn consumed(self, line: Seq<char>) -> nat {
        match self {
            LineView::Marker => 0,
            _ => vstd::utf8::encode_utf8(line).len(),
        }
    }

    /// Whether the line is counted among the skipped lines.
    pub open spec fn counts_as_skipped(self) -> bool {
        self is Malformed
    }
}

impl View for LineOutcome {
    type V = LineView;

    open spec fn view(&self) -> LineView {
        match self {
            LineOutcome::Marker => LineView::Marker,
            LineOutcome::Malformed => LineView::Malformed,
            LineOutcome::Record(drafts) => LineView::Record(drafts_view(drafts@)),
        }
    }
}

/// What becomes of a document that was read from a line.
pub open spec fn outcome_of_document(document: JsonValue, settings: Settings) -> LineView {
    match decoded(document) {
        Some(record) => LineView::Record(drafts_of_record(record, settings)),
        None => LineView::Malformed,
    }
}

/// What becomes of a line.
pub open spec fn outcome_of_line(line: Seq<char>, settings: Settings) -> LineView {
    if is_marker(line) {
        LineView::Marker
    } else {
        match parsed(record_text(line)) {
            Some(document) => outcome_of_document(document, settings),
            None => LineView::Malformed,
        }
    }
}

/// The drafts of `record`: one for each configured entity type that it belongs to.
pub fn examine_record(
    record: &Record,
    config: &Config,
    mappings: &Vec<TypeMapping>,
    default_properties: &Vec<TypeRules>,
) -> (drafts: Vec<Draft>)
    ensures
        drafts_view(drafts@) == drafts_of_record(
            record@,
            settings_of(config, mappings, default_properties),
        ),
        record@.claims is None || record@.labels is None || record@.descriptions is None
            || record@.aliases is None ==> drafts@.len() == 0,
{
    let ghost settings = settings_of(config, mappings, default_properties);
    let mut drafts: Vec<Draft> = Vec::new();
    assert(drafts_view(drafts@) =~= Seq::<DraftView>::empty());
    let (claims, labels, descriptions, aliases) = match (
        record.claims,
        record.labels,
        record.descriptions,
        record.aliases,
    ) {
        (Some(claims), Some(labels), Some(descriptions), Some(aliases)) => (
            claims,
            labels,
            descriptions,
            aliases,
        ),
        _ => {
            return drafts;
        },
    };
    let lang = config.lang.as_str();
    let label = match localized_text(labels, lang) {
        Some(label) => label,
        None => {
            return drafts;
        },
    };
    let description: &str = match localized_text(descriptions, lang) {
        Some(text) => text,
        None => "",
    };
    proof {
        reveal_strlit("");
        assert(""@ =~= Seq::<char>::empty());
    }
    let alias_list = collect_aliases(aliases, lang, label);
    let ghost types = settings.entity_types;
    let mut i: usize = 0;
    assert(types.take(0) =~= Seq::<Seq<char>>::empty());
    while i < config.entity_types.len()
        invariant
            i <= config.entity_types.len(),
            settings == settings_of(config, mappings, default_properties),
            types == settings.entity_types,
            strings_view(alias_list@) == aliases_of(aliases@, settings.lang, label@),
            description@ == description_of(descriptions@, settings.lang),
            drafts_view(drafts@) == drafts_for(
                types.take(i as int),
                record.id@,
                claims@,
                label@,
                description@,
                strings_view(alias_list@),
                settings,
            ),
        decreases config.entity_types.len() - i,
    {
        let ghost before = drafts_view(drafts@);
        proof {
            let next = types.take(i + 1);
            assert(next.drop_last() =~= types.take(i as int));
            assert(next.last() == config.entity_types@[i as int]@);
        }
        let entity_type = config.entity_types[i].as_str();
        let belongs = match find_mapping(mappings, entity_type) {
            Some(ids) => matches_type(claims, ids),
            None => false,
        };
        if belongs {
            let extraction = extract_properties(
                entity_type,
                claims,
                config.process_images,
                default_properties,
            );
            let mut alias_copy: Vec<String> = Vec::new();
            let mut k: usize = 0;
            while k < alias_list.len()
                invariant
                    k <= alias_list.len(),
                    alias_copy@.len() == k,
                    forall|j: int| 0 <= j < k ==> (#[trigger] alias_copy@[j])@ == alias_list@[j]@,
                decreases alias_list.len() - k,
            {
                alias_copy.push(alias_list[k].clone());
                k += 1;
            }
            assert(strings_view(alias_copy@) =~= strings_view(alias_list@));
            let draft = Draft {
                entity_type: entity_type.to_owned(),
                entity_id: record.id.to_owned(),
                label: label.to_owned(),
                description: description.to_owned(),
                aliases: alias_copy,
                properties: extraction.properties,
                image_requests: extraction.image_requests,
            };
            drafts.push(draft);
            assert(drafts_view(drafts@) =~= before.push(draft@));
        }
        i += 1;
    }
    assert(types.take(i as int) =~= types);
    drafts
}

/// What becomes of `document`, which was read from a line: its drafts where it holds a
/// record.
pub fn examine_document(
    document: &Json,
    config: &Config,
    mappings: &Vec<TypeMapping>,
    default_properties: &Vec<TypeRules>,
) -> (outcome: LineOutcome)
    ensures
        outcome@ == outcome_of_document(
            document@,
            settings_of(config, mappings, default_properties),
        ),
{
    match decode_record(document) {
        Some(record) => LineOutcome::Record(
            examine_record(&record, config, mappings, default_properties),
        ),
        None => LineOutcome::Malformed,
    }
}

/// What becomes of `line`: nothing for a blank line or a bracket; else the commas at its
/// end are dropped and the rest is read as JSON, and what was read is examined.
pub fn examine_line(
    line: &str,
    config: &Config,
    mappings: &Vec<TypeMapping>,
    default_properties: &Vec<TypeRules>,
) -> (outcome: LineOutcome)
    ensures
        outcome@ == outcome_of_line(line@, settings_of(config, mappings, default_properties)),
        is_marker(line@) ==> outcome@ == LineView::Marker,
{
    if is_marker_line(line) {
        return LineOutcome::Marker;
    }
    let text = record_text_of(line);
    match parse(text.as_str()) {
        Some(document) => examine_document(&document, config, mappings, default_properties),
        None => LineOutcome::Malformed,
    }
}

impl LineOutcome {
    /// The number of bytes that `line`, of which this is the outcome, adds to the progress of
    /// the run: none for a marker, else its length.
    pub fn consumed_bytes(&self, line: &str) -> (n: usize)
        ensures
            n == self@.consumed(line@),
    {
        match self {
            LineOutcome::Marker => 0,
            _ => line.as_bytes().len(),
        }
    }

    /// Whether the line is counted among the skipped lines.
    pub fn is_skipped(&self) -> (skipped: bool)
        ensures
            skipped == self@.counts_as_skipped(),
    {
        match self {
            LineOutcome::Malformed => true,
            _ => false,
        }
    }
}

/// A blank line and a line that is a bracket leave no trace: no draft, so no output, no
/// byte of progress, and no count among the skipped lines.
pub proof fn lemma_marker_lines_leave_no_trace(line: Seq<char>, settings: Settings)
    requires
        is_blank(line) || line == seq!['['] || line == seq![']'],
    ensures
        outcome_of_line(line, settings).drafts() == Seq::<DraftView>::empty(),
        outcome_of_line(line, settings).consumed(line) == 0,
        !outcome_of_line(line, settings).counts_as_skipped(),
{
}

/// A record that lacks its claims, its labels, its descriptions or its aliases gives no
/// draft, so no output.
pub proof fn lemma_incomplete_records_give_nothing(document: JsonValue, settings: Settings)
    requires
        decoded(document) matches Some(record) && (record.claims is None || record.labels is None
            || record.descriptions is None || record.aliases is None),
    ensures
        outcome_of_document(document, settings).drafts() == Seq::<DraftView>::empty(),
{
}

} // verus!
