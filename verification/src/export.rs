//! From a draft to what is written: the names under which an entity is indexed, its entry in
//! the key-value store, and the handing over of both to the writer.

use crate::batched_writer::{BatchedWriter, Entry, Flushed, FlushedView, WriterView};
use crate::error::ProcessingError;
use crate::extract::{image_key, store_image};
use crate::json::{Json, JsonObject, JsonValue};
use crate::order::{gathered, lemma_gathered_ignores_order, lemma_gathered_together};
use crate::pipeline::{drafts_view, outcome_of_line, Draft, DraftView, Settings};
use crate::resolver::{
    batches_of, batches_view, lookup_batches, missing, reference_in, referenced_ids,
    resolved_properties, Cache, LOOKUP_BATCH_SIZE,
};
use crate::text::{add_name, strings_view, with_name};
use vstd::multiset::Multiset;
use vstd::prelude::*;

verus! {

/// The string under `name` among the attributes, where there is one.
pub open spec fn text_attribute(properties: Map<Seq<char>, JsonValue>, name: Seq<char>) -> Option<
    Seq<char>,
> {
    if properties.contains_key(name) {
        properties[name].text()
    } else {
        None
    }
}

/// `names` with `name` added, where there is one and it is not among them.
pub open spec fn with_optional_name(names: Seq<Seq<char>>, name: Option<Seq<char>>) -> Seq<
    Seq<char>,
> {
    match name {
        Some(n) => with_name(names, n),
        None => names,
    }
}

/// `names` with each of `more` added in order, unless it is among them already.
pub open spec fn with_names(names: Seq<Seq<char>>, more: Seq<Seq<char>>) -> Seq<Seq<char>>
    decreases more.len(),
{
    if more.len() == 0 {
        names
    } else {
        with_name(with_names(names, more.drop_last()), more.last())
    }
}

/// The names under which an entity is indexed, each once: its label, its short name and its
/// nickname where the attributes hold them as strings, and its aliases.
pub open spec fn used_names(
    label: Seq<char>,
    properties: Map<Seq<char>, JsonValue>,
    aliases: Seq<Seq<char>>,
) -> Seq<Seq<char>> {
    with_names(
        with_optional_name(
            with_optional_name(seq![label], text_attribute(properties, "P1813"@)),
            text_attribute(properties, "P1449"@),
        ),
        aliases,
    )
}

/// The strings `names` as JSON.
pub open spec fn texts(names: Seq<Seq<char>>) -> Seq<JsonValue> {
    Seq::new(names.len(), |i: int| JsonValue::Text(names[i]))
}

/// What the key-value store says of an entity: its label, its description unless empty,
/// its aliases unless there are none, and its attributes unless there are none.
pub open spec fn entity_data(
    label: Seq<char>,
    description: Seq<char>,
    aliases: Seq<Seq<char>>,
    properties: Map<Seq<char>, JsonValue>,
) -> Map<Seq<char>, JsonValue> {
    let labelled = Map::<Seq<char>, JsonValue>::empty().insert("label"@, JsonValue::Text(label));
    let described = if description.len() > 0 {
        labelled.insert("descr"@, JsonValue::Text(description))
    } else {
        labelled
    };
    let aliased = if aliases.len() > 0 {
        described.insert("alias"@, JsonValue::Array(texts(aliases)))
    } else {
        described
    };
    if properties == Map::<Seq<char>, JsonValue>::empty() {
        aliased
    } else {
        aliased.insert("props"@, JsonValue::Object(properties))
    }
}

/// The entry of an entity in the key-value store: an object with one field, named by the
/// entity's identifier, that holds what the store says of the entity.
pub open spec fn kv_entry_of(
    entity_id: Seq<char>,
    label: Seq<char>,
    description: Seq<char>,
    aliases: Seq<Seq<char>>,
    properties: Map<Seq<char>, JsonValue>,
) -> JsonValue {
    JsonValue::Object(
        Map::<Seq<char>, JsonValue>::empty().insert(
            entity_id,
            JsonValue::Object(entity_data(label, description, aliases, properties)),
        ),
    )
}

fn add_text_attribute(names: &mut Vec<String>, properties: &JsonObject, name: &str)
    ensures
        strings_view(final(names)@) == with_optional_name(
            strings_view(old(names)@),
            text_attribute(properties@, name@),
        ),
{
    if let Some(value) = properties.get(name) {
        if let Some(text) = value.as_text() {
            add_name(names, text);
        }
    }
}

/// The names under which the entity `entity_id` is indexed, and its entry in the key-value
/// store. `properties` are its attributes after resolution.
pub fn prepare_data_export(
    entity_id: &str,
    properties: JsonObject,
    label: &str,
    aliases: &Vec<String>,
    description: &str,
) -> (export: (Vec<String>, Json))
    ensures
        strings_view(export.0@) == used_names(label@, properties@, strings_view(aliases@)),
        export.1@ == kv_entry_of(
            entity_id@,
            label@,
            description@,
            strings_view(aliases@),
            properties@,
        ),
{
    let ghost alias_views = strings_view(aliases@);
    let mut names: Vec<String> = Vec::new();
    names.push(label.to_owned());
    assert(strings_view(names@) =~= seq![label@]);
    add_text_attribute(&mut names, &properties, "P1813");
    add_text_attribute(&mut names, &properties, "P1449");
    let ghost named = strings_view(names@);
    let mut alias_items: Vec<Json> = Vec::new();
    let mut i: usize = 0;
    assert(alias_views.take(0) =~= Seq::<Seq<char>>::empty());
    while i < aliases.len()
        invariant
            i <= aliases.len(),
            alias_views == strings_view(aliases@),
            strings_view(names@) == with_names(named, alias_views.take(i as int)),
            alias_items@.len() == i,
            forall|j: int|
                0 <= j < i ==> (#[trigger] alias_items@[j])@ == JsonValue::Text(alias_views[j]),
        decreases aliases.len() - i,
    {
        proof {
            let next = alias_views.take(i + 1);
            assert(next.drop_last() =~= alias_views.take(i as int));
            assert(next.last() == aliases@[i as int]@);
        }
        add_name(&mut names, aliases[i].as_str());
        alias_items.push(Json::Text(aliases[i].clone()));
        i += 1;
    }
    assert(alias_views.take(i as int) =~= alias_views);
    let mut data = JsonObject::new();
    data.insert("label".to_owned(), Json::Text(label.to_owned()));
    if !description.is_empty() {
        data.insert("descr".to_owned(), Json::Text(description.to_owned()));
    }
    if aliases.len() > 0 {
        let alias_array = Json::Array(alias_items);
        assert(alias_array@ =~= JsonValue::Array(texts(alias_views))) by {
            assert(alias_array@->Array_0 =~= texts(alias_views));
        }
        data.insert("alias".to_owned(), alias_array);
    }
    if !properties.is_empty() {
        data.insert("props".to_owned(), Json::Object(properties));
    }
    let mut entry = JsonObject::new();
    entry.insert(entity_id.to_owned(), Json::Object(data));
    (names, Json::Object(entry))
}

/// What is written for a record and one entity type.
#[derive(Debug)]
pub struct Export {
    pub entity_type: String,
    pub entity_id: String,
    /// The names under which the entity is indexed, each once.
    pub used_names: Vec<String>,
    /// The entity's entry in the key-value store.
    pub kv_entry: Json,
}

/// The contents of an export.
pub ghost struct ExportView {
    pub entity_type: Seq<char>,
    pub entity_id: Seq<char>,
    pub used_names: Seq<Seq<char>>,
    pub kv_entry: JsonValue,
}

impl View for Export {
    type V = ExportView;

    open spec fn view(&self) -> ExportView {
        ExportView {
            entity_type: self.entity_type@,
            entity_id: self.entity_id@,
            used_names: strings_view(self.used_names@),
            kv_entry: self.kv_entry@,
        }
    }
}

impl DraftView {
    /// The draft with what is kept of a fetched image stored among its attributes.
    pub open spec fn with_image(self, kept: Option<Seq<char>>) -> DraftView {
        match kept {
            Some(text) => DraftView {
                properties: self.properties.insert(image_key(), JsonValue::Text(text)),
                ..self
            },
            None => self,
        }
    }

    /// What is written for the draft once its identifiers are resolved with `cache`.
    pub open spec fn export(self, cache: Map<Seq<char>, Seq<char>>) -> ExportView {
        let properties = resolved_properties(cache, self.properties);
        ExportView {
            entity_type: self.entity_type,
            entity_id: self.entity_id,
            used_names: used_names(self.label, properties, self.aliases),
            kv_entry: kv_entry_of(
                self.entity_id,
                self.label,
                self.description,
                self.aliases,
                properties,
            ),
        }
    }
}

/// The contents of what is kept of a fetched image.
pub open spec fn kept_view(kept: Option<String>) -> Option<Seq<char>> {
    match kept {
        Some(text) => Some(text@),
        None => None,
    }
}

impl Draft {
    /// The lookups that the draft still needs: the identifiers that its attributes name and
    /// `cache` does not know, each once, in batches of at most `LOOKUP_BATCH_SIZE`. None
    /// where the cache knows them all.
    pub fn lookups(&self, cache: &Cache) -> (batches: Vec<Vec<String>>)
        ensures
            exists|ids: Seq<Seq<char>>|
                ids.no_duplicates() && ids.to_set() == missing(cache@, self@.properties)
                    && batches_view(batches@) == #[trigger] batches_of(
                    ids,
                    LOOKUP_BATCH_SIZE as nat,
                ),
            missing(cache@, self@.properties) == Set::<Seq<char>>::empty() ==> batches@.len() == 0,
    {
        let ids = cache.missing_ids(&self.properties);
        let batches = lookup_batches(&ids);
        proof {
            let found = strings_view(ids@);
            if missing(cache@, self@.properties) == Set::<Seq<char>>::empty() {
                if found.len() > 0 {
                    assert(found.contains(found[0]));
                    assert(found.to_set().contains(found[0]));
                }
                assert(batches_view(batches@).len() == 0);
            }
        }
        batches
    }

    /// Stores what is kept of a fetched image among the attributes of the draft.
    pub fn store_image(&mut self, kept: Option<String>)
        ensures
            final(self)@ == old(self)@.with_image(kept_view(kept)),
    {
        store_image(&mut self.properties, kept);
    }

    /// What is written for the draft: its identifiers are resolved with `cache`, and the
    /// names and the entry are made of what comes out.
    pub fn finish(&self, cache: &Cache) -> (export: Export)
        ensures
            export@ == self@.export(cache@),
    {
        let properties = cache.resolve_entity_ids(&self.properties);
        let (used_names, kv_entry) = prepare_data_export(
            self.entity_id.as_str(),
            properties,
            self.label.as_str(),
            &self.aliases,
            self.description.as_str(),
        );
        Export {
            entity_type: self.entity_type.clone(),
            entity_id: self.entity_id.clone(),
            used_names,
            kv_entry,
        }
    }
}

/// What handing an entity to the writer gave: the flushes that it caused, in order, and the
/// failure that ended it, if one did.
#[derive(Debug)]
pub struct Written {
    pub flushed: Vec<Flushed>,
    pub failure: Option<ProcessingError>,
}

/// The contents of a list of flushes.
pub open spec fn flushes_view(flushes: Seq<Flushed>) -> Seq<FlushedView> {
    Seq::new(flushes.len(), |i: int| flushes[i]@)
}

/// How far the handing over of an entity has come: the writer, the flushes that it gave so
/// far, and the failure that made it stop.
pub ghost struct Handover {
    pub writer: WriterView,
    pub flushed: Seq<FlushedView>,
    pub failure: Option<ProcessingError>,
}

impl Handover {
    /// One more entry: `added` is the writer with the entry in its buffer, which now
    /// flushes where it is full.
    pub open spec fn settled(self, added: WriterView) -> Handover {
        match added.settle_result() {
            Ok(Some(output)) => Handover {
                writer: added.settled(),
                flushed: self.flushed.push(output),
                failure: None,
            },
            Ok(None) => Handover { writer: added.settled(), flushed: self.flushed, failure: None },
            Err(e) => Handover { writer: added.settled(), flushed: self.flushed, failure: Some(e) },
        }
    }
}

/// The index entries of an entity handed to the writer one by one, as far as no flush
/// fails: one entry for each name.
pub open spec fn index_written(
    writer: WriterView,
    entity_type: Seq<char>,
    entity_id: Seq<char>,
    names: Seq<Seq<char>>,
) -> Handover
    decreases names.len(),
{
    if names.len() == 0 {
        Handover { writer, flushed: Seq::empty(), failure: None }
    } else {
        let before = index_written(writer, entity_type, entity_id, names.drop_last());
        if before.failure is Some {
            before
        } else {
            before.settled(before.writer.with_index_entry((entity_type, names.last(), entity_id)))
        }
    }
}

/// An entity handed to the writer: its index entries, then its key-value entry, as far as
/// no flush fails.
pub open spec fn entity_written(
    writer: WriterView,
    entity_type: Seq<char>,
    entity_id: Seq<char>,
    names: Seq<Seq<char>>,
    kv_entry: JsonValue,
) -> Handover {
    let indexed = index_written(writer, entity_type, entity_id, names);
    if indexed.failure is Some {
        indexed
    } else {
        indexed.settled(indexed.writer.with_record(kv_entry))
    }
}

/// Hands an entity to the writer: one index entry for each of `used_names`, in order, then
/// the key-value entry. A flush that fails ends it; the flushes before it are handed back
/// all the same.
pub fn write_entity_data(
    batched_writer: &mut BatchedWriter,
    entity_type: &str,
    entity_id: &str,
    used_names: Vec<String>,
    kv_entry: Json,
) -> (written: Written)
    ensures
        entity_written(
            old(batched_writer)@,
            entity_type@,
            entity_id@,
            strings_view(used_names@),
            kv_entry@,
        ) == (Handover {
            writer: final(batched_writer)@,
            flushed: flushes_view(written.flushed@),
            failure: written.failure,
        }),
{
    let ghost names = strings_view(used_names@);
    let ghost start = batched_writer@;
    let mut flushed: Vec<Flushed> = Vec::new();
    let mut i: usize = 0;
    assert(names.take(0) =~= Seq::<Seq<char>>::empty());
    assert(flushes_view(flushed@) =~= Seq::<FlushedView>::empty());
    while i < used_names.len()
        invariant
            i <= used_names.len(),
            names == strings_view(used_names@),
            start == old(batched_writer)@,
            index_written(start, entity_type@, entity_id@, names.take(i as int)) == (Handover {
                writer: batched_writer@,
                flushed: flushes_view(flushed@),
                failure: None,
            }),
        decreases used_names.len() - i,
    {
        let ghost before = flushes_view(flushed@);
        proof {
            let next = names.take(i + 1);
            assert(next.drop_last() =~= names.take(i as int));
            assert(next.last() == used_names@[i as int]@);
        }
        match batched_writer.add_csv_entry(
            entity_type.to_owned(),
            (used_names[i].clone(), entity_id.to_owned()),
        ) {
            Ok(Some(output)) => {
                flushed.push(output);
                assert(flushes_view(flushed@) =~= before.push(output@));
            },
            Ok(None) => {},
            Err(e) => {
                proof {
                    let stopped = Handover {
                        writer: batched_writer@,
                        flushed: flushes_view(flushed@),
                        failure: Some(e),
                    };
                    assert(index_written(start, entity_type@, entity_id@, names.take(i + 1))
                        == stopped);
                    lemma_index_written_stops(start, entity_type@, entity_id@, names, i + 1);
                }
                return Written { flushed, failure: Some(e) };
            },
        }
        i += 1;
    }
    assert(names.take(i as int) =~= names);
    let ghost before = flushes_view(flushed@);
    match batched_writer.add_kv_entry(kv_entry) {
        Ok(Some(output)) => {
            flushed.push(output);
            assert(flushes_view(flushed@) =~= before.push(output@));
            Written { flushed, failure: None }
        },
        Ok(None) => Written { flushed, failure: None },
        Err(e) => Written { flushed, failure: Some(e) },
    }
}

/// The index entries of an entity: one for each name, in order.
pub open spec fn index_entries_of(
    entity_type: Seq<char>,
    entity_id: Seq<char>,
    names: Seq<Seq<char>>,
) -> Seq<Entry> {
    Seq::new(names.len(), |i: int| Entry::Index((entity_type, names[i], entity_id)))
}

/// The entries of an entity: its index entries, then its key-value entry.
pub open spec fn entity_entries(
    entity_type: Seq<char>,
    entity_id: Seq<char>,
    names: Seq<Seq<char>>,
    kv_entry: JsonValue,
) -> Seq<Entry> {
    index_entries_of(entity_type, entity_id, names).push(Entry::Record(kv_entry))
}

/// Where no flush fails, handing the index entries of an entity to the writer is adding
/// them one by one.
pub proof fn lemma_index_written_adds_entries(
    writer: WriterView,
    entity_type: Seq<char>,
    entity_id: Seq<char>,
    names: Seq<Seq<char>>,
)
    requires
        index_written(writer, entity_type, entity_id, names).failure is None,
    ensures
        (
            index_written(writer, entity_type, entity_id, names).writer,
            index_written(writer, entity_type, entity_id, names).flushed,
        ) == writer.after_entries(index_entries_of(entity_type, entity_id, names)),
    decreases names.len(),
{
    let entries = index_entries_of(entity_type, entity_id, names);
    if names.len() > 0 {
        let front = names.drop_last();
        lemma_index_written_adds_entries(writer, entity_type, entity_id, front);
        assert(entries.drop_last() =~= index_entries_of(entity_type, entity_id, front));
        assert(entries.last() == Entry::Index((entity_type, names.last(), entity_id)));
    }
}

/// Where no flush fails, handing an entity to the writer is adding its entries one by one;
/// so of a run of entities nothing is lost and nothing leaves twice.
pub proof fn lemma_entity_written_adds_entries(
    writer: WriterView,
    entity_type: Seq<char>,
    entity_id: Seq<char>,
    names: Seq<Seq<char>>,
    kv_entry: JsonValue,
)
    requires
        entity_written(writer, entity_type, entity_id, names, kv_entry).failure is None,
    ensures
        (
            entity_written(writer, entity_type, entity_id, names, kv_entry).writer,
            entity_written(writer, entity_type, entity_id, names, kv_entry).flushed,
        ) == writer.after_entries(entity_entries(entity_type, entity_id, names, kv_entry)),
{
    let entries = entity_entries(entity_type, entity_id, names, kv_entry);
    lemma_index_written_adds_entries(writer, entity_type, entity_id, names);
    assert(entries.drop_last() =~= index_entries_of(entity_type, entity_id, names));
}

/// Once a flush has failed, the names that follow change nothing.
pub proof fn lemma_index_written_stops(
    writer: WriterView,
    entity_type: Seq<char>,
    entity_id: Seq<char>,
    names: Seq<Seq<char>>,
    n: int,
)
    requires
        0 <= n <= names.len(),
        index_written(writer, entity_type, entity_id, names.take(n)).failure is Some,
    ensures
        index_written(writer, entity_type, entity_id, names) == index_written(
            writer,
            entity_type,
            entity_id,
            names.take(n),
        ),
    decreases names.len() - n,
{
    if n < names.len() {
        let next = names.take(n + 1);
        assert(next.drop_last() =~= names.take(n));
        lemma_index_written_stops(writer, entity_type, entity_id, names, n + 1);
    } else {
        assert(names.take(n) =~= names);
    }
}

/// The contents of a list of exports.
pub open spec fn exports_view(exports: Seq<Export>) -> Seq<ExportView> {
    Seq::new(exports.len(), |i: int| exports[i]@)
}

/// What is written for `drafts` once their identifiers are resolved with `cache`: the export
/// of each, in order.
pub open spec fn exports_of(drafts: Seq<DraftView>, cache: Map<Seq<char>, Seq<char>>) -> Seq<
    ExportView,
> {
    Seq::new(drafts.len(), |i: int| drafts[i].export(cache))
}

/// What is written for `drafts`: each is finished with `cache`, in order.
pub fn finish_all(drafts: &Vec<Draft>, cache: &Cache) -> (exports: Vec<Export>)
    ensures
        exports_view(exports@) == exports_of(drafts_view(drafts@), cache@),
{
    let mut exports: Vec<Export> = Vec::new();
    let mut i: usize = 0;
    while i < drafts.len()
        invariant
            i <= drafts.len(),
            exports@.len() == i,
            forall|j: int| 0 <= j < i ==> (#[trigger] exports@[j])@ == drafts@[j]@.export(cache@),
        decreases drafts.len() - i,
    {
        exports.push(drafts[i].finish(cache));
        i += 1;
    }
    assert(exports_view(exports@) =~= exports_of(drafts_view(drafts@), cache@));
    exports
}

/// What is written for a line, given what the cache knows: the export of each draft that
/// the line gives.
pub open spec fn exports_of_line(
    line: Seq<char>,
    settings: Settings,
    cache: Map<Seq<char>, Seq<char>>,
) -> Seq<ExportView> {
    exports_of(outcome_of_line(line, settings).drafts(), cache)
}

/// What a line gives to what is written, given what the cache knows: its exports, each as
/// often as it occurs.
pub open spec fn share_of_line(settings: Settings, cache: Map<Seq<char>, Seq<char>>) -> spec_fn(
    Seq<char>,
) -> Multiset<ExportView> {
    |line: Seq<char>| exports_of_line(line, settings, cache).to_multiset()
}

/// What is written for `lines`, taken together without regard to order.
pub open spec fn exports_of_lines(
    lines: Seq<Seq<char>>,
    settings: Settings,
    cache: Map<Seq<char>, Seq<char>>,
) -> Multiset<ExportView> {
    gathered(lines, share_of_line(settings, cache))
}

/// The order in which lines are taken does not change what is written: the same lines in
/// another order give the same exports, each as often, as long as the cache knows the same.
pub proof fn lemma_order_of_lines_is_immaterial(
    lines: Seq<Seq<char>>,
    reordered: Seq<Seq<char>>,
    settings: Settings,
    cache: Map<Seq<char>, Seq<char>>,
)
    requires
        lines.to_multiset() == reordered.to_multiset(),
    ensures
        exports_of_lines(lines, settings, cache) == exports_of_lines(reordered, settings, cache),
{
    lemma_gathered_ignores_order(lines, reordered, share_of_line(settings, cache));
}

/// Lines that are shared out between two workers give together what they give when one
/// worker takes them all.
pub proof fn lemma_shared_lines_give_the_same(
    first: Seq<Seq<char>>,
    second: Seq<Seq<char>>,
    settings: Settings,
    cache: Map<Seq<char>, Seq<char>>,
)
    ensures
        exports_of_lines(first + second, settings, cache) == exports_of_lines(
            first,
            settings,
            cache,
        ).add(exports_of_lines(second, settings, cache)),
{
    lemma_gathered_together(first, second, share_of_line(settings, cache));
}

/// Whether `cache` serves a draft as well as the labels `labels` do: it holds nothing but
/// labels of `labels`, and it knows every identifier that the draft names and that has a
/// label at all.
pub open spec fn serves(
    cache: Map<Seq<char>, Seq<char>>,
    labels: Map<Seq<char>, Seq<char>>,
    draft: DraftView,
) -> bool {
    &&& forall|id: Seq<char>| #[trigger]
        cache.contains_key(id) ==> labels.contains_key(id) && labels[id] == cache[id]
    &&& forall|id: Seq<char>| #[trigger]
        referenced_ids(draft.properties).contains(id) && labels.contains_key(id)
            ==> cache.contains_key(id)
}

/// A draft is finished alike by every cache that serves it: what is written for it depends
/// on the labels of the identifiers that it names, and on nothing else that the cache
/// holds at the moment.
pub proof fn lemma_export_needs_what_the_draft_names(
    draft: DraftView,
    cache: Map<Seq<char>, Seq<char>>,
    labels: Map<Seq<char>, Seq<char>>,
)
    requires
        serves(cache, labels, draft),
    ensures
        draft.export(cache) == draft.export(labels),
{
    let with_cache = resolved_properties(cache, draft.properties);
    let with_labels = resolved_properties(labels, draft.properties);
    assert forall|name: Seq<char>| #[trigger]
        draft.properties.contains_key(name) implies with_cache[name] == with_labels[name] by {
        match reference_in(draft.properties[name]) {
            Some(id) => {
                assert(referenced_ids(draft.properties).contains(id));
            },
            None => {},
        }
    }
    assert(with_cache =~= with_labels);
}

/// A line of a run, with what the cache knew when the drafts of the line were finished.
pub ghost struct Turn {
    pub line: Seq<char>,
    pub cache: Map<Seq<char>, Seq<char>>,
}

/// What a turn gives to what is written.
pub open spec fn share_of_turn(settings: Settings) -> spec_fn(Turn) -> Multiset<ExportView> {
    |turn: Turn| exports_of_line(turn.line, settings, turn.cache).to_multiset()
}

/// What a run writes: what each of its turns gives, in whatever order the workers took
/// them.
pub open spec fn exports_of_run(turns: Seq<Turn>, settings: Settings) -> Multiset<ExportView> {
    gathered(turns, share_of_turn(settings))
}

/// The lines of a run, in the order of its turns.
pub open spec fn lines_of(turns: Seq<Turn>) -> Seq<Seq<char>> {
    Seq::new(turns.len(), |i: int| turns[i].line)
}

/// Whether at every turn of a run the cache served every draft of the line.
pub open spec fn well_served(
    turns: Seq<Turn>,
    settings: Settings,
    labels: Map<Seq<char>, Seq<char>>,
) -> bool {
    forall|i: int, k: int|
        0 <= i < turns.len() && 0 <= k < outcome_of_line(turns[i].line, settings).drafts().len()
            ==> serves(
            turns[i].cache,
            labels,
            #[trigger] outcome_of_line(turns[i].line, settings).drafts()[k],
        )
}

/// A run in which the cache served every draft writes what the labels give for its lines,
/// however the cache grew in between.
pub proof fn lemma_run_writes_what_the_labels_give(
    turns: Seq<Turn>,
    settings: Settings,
    labels: Map<Seq<char>, Seq<char>>,
)
    requires
        well_served(turns, settings, labels),
    ensures
        exports_of_run(turns, settings) == exports_of_lines(lines_of(turns), settings, labels),
    decreases turns.len(),
{
    if turns.len() > 0 {
        let front = turns.drop_last();
        let turn = turns.last();
        assert forall|i: int, k: int|
            0 <= i < front.len() && 0 <= k < outcome_of_line(
                front[i].line,
                settings,
            ).drafts().len() implies serves(
            front[i].cache,
            labels,
            #[trigger] outcome_of_line(front[i].line, settings).drafts()[k],
        ) by {
            assert(front[i] == turns[i]);
        }
        lemma_run_writes_what_the_labels_give(front, settings, labels);
        assert(lines_of(turns).drop_last() =~= lines_of(front));
        assert(lines_of(turns).last() == turn.line);
        let drafts = outcome_of_line(turn.line, settings).drafts();
        assert forall|k: int| 0 <= k < drafts.len() implies drafts[k].export(turn.cache)
            == drafts[k].export(labels) by {
            assert(turns[turns.len() - 1] == turn);
            assert(serves(turn.cache, labels, drafts[k]));
            lemma_export_needs_what_the_draft_names(drafts[k], turn.cache, labels);
        }
        assert(exports_of_line(turn.line, settings, turn.cache) =~= exports_of_line(
            turn.line,
            settings,
            labels,
        ));
    }
}

/// One worker or many: two runs over the same lines, in which the cache served every draft,
/// write the same exports, each as often, in whatever order the workers took the lines and
/// however the cache grew in between.
pub proof fn lemma_runs_over_the_same_lines_write_the_same(
    one: Seq<Turn>,
    other: Seq<Turn>,
    settings: Settings,
    labels: Map<Seq<char>, Seq<char>>,
)
    requires
        lines_of(one).to_multiset() == lines_of(other).to_multiset(),
        well_served(one, settings, labels),
        well_served(other, settings, labels),
    ensures
        exports_of_run(one, settings) == exports_of_run(other, settings),
{
    lemma_run_writes_what_the_labels_give(one, settings, labels);
    lemma_run_writes_what_the_labels_give(other, settings, labels);
    lemma_order_of_lines_is_immaterial(lines_of(one), lines_of(other), settings, labels);
}

} // verus!
