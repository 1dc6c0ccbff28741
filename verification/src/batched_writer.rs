//! The batched output writer: index entries and key-value entries wait in memory and leave
//! together, as the rows of each index sink and the bytes of the key-value store.
//!
//! The writer hands out what is to be written; opening the sinks and writing to them is the
//! caller's part. A flush encodes every waiting entry before it empties a buffer, so a
//! failure leaves the writer as it was.

use crate::codec::{json_text, msgpack_bytes, to_binary, to_text};
use crate::error::ProcessingError;
use crate::json::{items_view, Json, JsonValue};
use crate::text::{add_name, distinct, str_eq, strings_view};
use crate::order::{gathered, lemma_gathered_ignores_order};
use vstd::multiset::Multiset;
use vstd::prelude::*;
use vstd::seq_lib::{lemma_multiset_commutative, to_multiset_build, to_multiset_len};
use vstd::string::StrSliceExecFns;
use vstd::utf8::encode_utf8;

verus! {

/// The name of the output format that writes one JSON text per line. Every other name asks
/// for MessagePack.
pub const JSON_LINES: &'static str = "JSONLines";

/// The file name extension of the key-value store for an output format: `jsonl` for JSON
/// lines, `msgpack` for every other name.
pub fn store_extension(output_format: &str) -> (extension: &'static str)
    ensures
        extension@ == (if output_format@ == JSON_LINES@ {
            "jsonl"@
        } else {
            "msgpack"@
        }),
{
    if str_eq(output_format, JSON_LINES) {
        "jsonl"
    } else {
        "msgpack"
    }
}

/// A pair of display name and identifier, waiting for the index of its entity type.
#[derive(Debug)]
pub struct IndexEntry {
    pub entity_type: String,
    pub name: String,
    pub id: String,
}

impl View for IndexEntry {
    type V = (Seq<char>, Seq<char>, Seq<char>);

    open spec fn view(&self) -> (Seq<char>, Seq<char>, Seq<char>) {
        (self.entity_type@, self.name@, self.id@)
    }
}

/// The rows that a flush hands to the index sink of one entity type.
#[derive(Debug)]
pub struct SinkRows {
    pub entity_type: String,
    pub rows: Vec<(String, String)>,
}

/// What a flush hands out to be written.
#[derive(Debug)]
pub struct Flushed {
    /// For each index sink, in the order of the sinks, its new rows in the order in which
    /// they were added.
    pub index: Vec<SinkRows>,
    /// The bytes to append to the key-value store: the entries in the order in which they
    /// were added, each in the writer's encoding.
    pub records: Vec<u8>,
    /// The number of key-value entries that `records` holds.
    pub record_count: usize,
}

/// What `finalize` hands out: the last flush, and the sinks that are to be made durable.
#[derive(Debug)]
pub struct Finalized {
    pub last: Flushed,
    pub sinks: Vec<String>,
}

/// The contents of a writer.
pub ghost struct WriterView {
    /// The entity types that have an index sink, each once.
    pub sinks: Seq<Seq<char>>,
    /// The waiting index entries, as entity type, name and identifier.
    pub index: Seq<(Seq<char>, Seq<char>, Seq<char>)>,
    /// The waiting key-value entries.
    pub records: Seq<JsonValue>,
    /// The number of waiting key-value entries at which the writer flushes by itself.
    pub batch_size: nat,
    /// Whether entries are written as JSON text, one per line.
    pub json_lines: bool,
}

/// The contents of a flush.
pub ghost struct FlushedView {
    pub index: Seq<(Seq<char>, Seq<(Seq<char>, Seq<char>)>)>,
    pub records: Seq<u8>,
    pub record_count: nat,
}

/// The contents of a list of rows.
pub open spec fn rows_view(rows: Seq<(String, String)>) -> Seq<(Seq<char>, Seq<char>)> {
    Seq::new(rows.len(), |i: int| (rows[i].0@, rows[i].1@))
}

/// The contents of the index part of a flush.
pub open spec fn sinks_view(sinks: Seq<SinkRows>) -> Seq<(Seq<char>, Seq<(Seq<char>, Seq<char>)>)> {
    Seq::new(sinks.len(), |i: int| (sinks[i].entity_type@, rows_view(sinks[i].rows@)))
}

impl View for Flushed {
    type V = FlushedView;

    open spec fn view(&self) -> FlushedView {
        FlushedView {
            index: sinks_view(self.index@),
            records: self.records@,
            record_count: self.record_count as nat,
        }
    }
}

/// The contents of a list of index entries.
pub open spec fn index_view(entries: Seq<IndexEntry>) -> Seq<(Seq<char>, Seq<char>, Seq<char>)> {
    Seq::new(entries.len(), |i: int| entries[i]@)
}

/// The rows of the sink `sink` among the waiting entries: name and identifier of each entry
/// of that entity type, in the order of the entries.
pub open spec fn rows_of(index: Seq<(Seq<char>, Seq<char>, Seq<char>)>, sink: Seq<char>) -> Seq<
    (Seq<char>, Seq<char>),
>
    decreases index.len(),
{
    if index.len() == 0 {
        Seq::empty()
    } else {
        let before = rows_of(index.drop_last(), sink);
        let entry = index.last();
        if entry.0 == sink {
            before.push((entry.1, entry.2))
        } else {
            before
        }
    }
}

/// The index part of a flush: for each sink its rows. An entry whose entity type has no sink
/// is in none of them.
pub open spec fn index_output(
    sinks: Seq<Seq<char>>,
    index: Seq<(Seq<char>, Seq<char>, Seq<char>)>,
) -> Seq<(Seq<char>, Seq<(Seq<char>, Seq<char>)>)> {
    Seq::new(sinks.len(), |i: int| (sinks[i], rows_of(index, sinks[i])))
}

/// The line that holds `text`: its bytes in UTF-8, then a line feed.
pub open spec fn line_of(text: Seq<char>) -> Seq<u8> {
    encode_utf8(text).push(10u8)
}

/// The line that holds `text`.
pub fn line_bytes(text: &str) -> (line: Vec<u8>)
    ensures
        line@ == line_of(text@),
{
    let mut line = text.as_bytes_vec();
    line.push(10u8);
    line
}

/// The bytes of one key-value entry: the line that holds its JSON text, or its MessagePack
/// bytes. `None` where the encoder reports an error.
pub open spec fn record_bytes(document: JsonValue, json_lines: bool) -> Option<Seq<u8>> {
    if json_lines {
        match json_text(document) {
            Some(text) => Some(line_of(text)),
            None => None,
        }
    } else {
        msgpack_bytes(document)
    }
}

/// The bytes of the entries `records`, one after the other. `None` where one of them cannot
/// be encoded.
pub open spec fn records_output(records: Seq<JsonValue>, json_lines: bool) -> Option<Seq<u8>>
    decreases records.len(),
{
    if records.len() == 0 {
        Some(Seq::empty())
    } else {
        match (
            records_output(records.drop_last(), json_lines),
            record_bytes(records.last(), json_lines),
        ) {
            (Some(before), Some(bytes)) => Some(before + bytes),
            _ => None,
        }
    }
}

/// The error of a writer whose encoder fails.
pub open spec fn encoding_error(json_lines: bool) -> ProcessingError {
    if json_lines {
        ProcessingError::JsonEncoding
    } else {
        ProcessingError::BinaryEncoding
    }
}

impl WriterView {
    /// What a flush of this writer hands out, `None` where an entry cannot be encoded.
    pub open spec fn flush_output(self) -> Option<FlushedView> {
        match records_output(self.records, self.json_lines) {
            Some(bytes) => Some(
                FlushedView {
                    index: index_output(self.sinks, self.index),
                    records: bytes,
                    record_count: self.records.len(),
                },
            ),
            None => None,
        }
    }

    /// The writer with both buffers empty.
    pub open spec fn emptied(self) -> WriterView {
        WriterView { index: Seq::empty(), records: Seq::empty(), ..self }
    }

    /// The writer with one more index entry.
    pub open spec fn with_index_entry(
        self,
        entry: (Seq<char>, Seq<char>, Seq<char>),
    ) -> WriterView {
        WriterView { index: self.index.push(entry), ..self }
    }

    /// The writer with one more key-value entry.
    pub open spec fn with_record(self, document: JsonValue) -> WriterView {
        WriterView { records: self.records.push(document), ..self }
    }

    /// Whether the key-value buffer has reached the batch size.
    pub open spec fn is_full(self) -> bool {
        self.records.len() >= self.batch_size
    }

    /// The writer after a flush: emptied where every entry can be encoded, unchanged where
    /// not.
    pub open spec fn after_flush(self) -> WriterView {
        if self.flush_output() is Some {
            self.emptied()
        } else {
            self
        }
    }

    /// What a flush returns: its output, or the error of the encoder.
    pub open spec fn flush_result(self) -> Result<FlushedView, ProcessingError> {
        match self.flush_output() {
            Some(output) => Ok(output),
            None => Err(encoding_error(self.json_lines)),
        }
    }

    /// The writer after an entry was added and the buffer, where full, was flushed.
    pub open spec fn settled(self) -> WriterView {
        if self.is_full() {
            self.after_flush()
        } else {
            self
        }
    }

    /// What adding an entry returns once the entry is in its buffer: nothing where the
    /// key-value buffer is not full, else what the flush returns.
    pub open spec fn settle_result(self) -> Result<Option<FlushedView>, ProcessingError> {
        if self.is_full() {
            match self.flush_result() {
                Ok(output) => Ok(Some(output)),
                Err(e) => Err(e),
            }
        } else {
            Ok(None)
        }
    }

    /// The writer after the key-value entries `documents` were added one by one, and the
    /// flushes that this caused, in order.
    pub open spec fn after_records(self, documents: Seq<JsonValue>) -> (
        WriterView,
        Seq<FlushedView>,
    )
        decreases documents.len(),
    {
        if documents.len() == 0 {
            (self, Seq::empty())
        } else {
            let (before, flushes) = self.after_records(documents.drop_last());
            let added = before.with_record(documents.last());
            match added.settle_result() {
                Ok(Some(output)) => (added.settled(), flushes.push(output)),
                _ => (added.settled(), flushes),
            }
        }
    }
}

/// The contents of what adding an entry returns.
pub open spec fn added_view(r: Result<Option<Flushed>, ProcessingError>) -> Result<
    Option<FlushedView>,
    ProcessingError,
> {
    match r {
        Ok(Some(flushed)) => Ok(Some(flushed@)),
        Ok(None) => Ok(None),
        Err(e) => Err(e),
    }
}

/// The contents of what a flush returns.
pub open spec fn flushed_view(r: Result<Flushed, ProcessingError>) -> Result<
    FlushedView,
    ProcessingError,
> {
    match r {
        Ok(flushed) => Ok(flushed@),
        Err(e) => Err(e),
    }
}

/// Buffers index entries and key-value entries, and hands them out in batches.
#[derive(Debug)]
pub struct BatchedWriter {
    sinks: Vec<String>,
    csv_entries: Vec<IndexEntry>,
    kv_entries: Vec<Json>,
    batch_size: usize,
    json_lines: bool,
}

impl View for BatchedWriter {
    type V = WriterView;

    closed spec fn view(&self) -> WriterView {
        WriterView {
            sinks: strings_view(self.sinks@),
            index: index_view(self.csv_entries@),
            records: items_view(self.kv_entries@),
            batch_size: self.batch_size as nat,
            json_lines: self.json_lines,
        }
    }
}

impl BatchedWriter {
    /// A writer with empty buffers and one index sink for each of the entity types
    /// `entity_types`. It flushes by itself once `batch_size` key-value entries wait, and
    /// writes them as JSON lines where `output_format` is `JSONLines`, else as MessagePack.
    pub fn new(entity_types: Vec<String>, output_format: String, batch_size: usize) -> (writer:
        BatchedWriter)
        ensures
            writer@ == (WriterView {
                sinks: distinct(strings_view(entity_types@)),
                index: Seq::empty(),
                records: Seq::empty(),
                batch_size: batch_size as nat,
                json_lines: output_format@ == JSON_LINES@,
            }),
    {
        let mut sinks: Vec<String> = Vec::new();
        let mut i: usize = 0;
        assert(strings_view(entity_types@).take(0) =~= Seq::empty());
        assert(strings_view(sinks@) =~= Seq::empty());
        while i < entity_types.len()
            invariant
                i <= entity_types.len(),
                strings_view(sinks@) == distinct(strings_view(entity_types@).take(i as int)),
            decreases entity_types.len() - i,
        {
            proof {
                let next = strings_view(entity_types@).take(i + 1);
                assert(next.drop_last() =~= strings_view(entity_types@).take(i as int));
            }
            add_name(&mut sinks, entity_types[i].as_str());
            i += 1;
        }
        assert(strings_view(entity_types@).take(i as int) =~= strings_view(entity_types@));
        let json_lines = str_eq(output_format.as_str(), JSON_LINES);
        let writer = BatchedWriter {
            sinks,
            csv_entries: Vec::new(),
            kv_entries: Vec::new(),
            batch_size,
            json_lines,
        };
        assert(writer@.index =~= Seq::empty());
        assert(writer@.records =~= Seq::empty());
        writer
    }

    /// The number of key-value entries that wait.
    pub fn pending_records(&self) -> (n: usize)
        ensures
            n == self@.records.len(),
    {
        self.kv_entries.len()
    }

    /// The number of index entries that wait.
    pub fn pending_index_entries(&self) -> (n: usize)
        ensures
            n == self@.index.len(),
    {
        self.csv_entries.len()
    }

    /// Adds the index entry `record`, a display name and an identifier, for the sink of
    /// `entity_type`, and flushes where the key-value buffer is full.
    pub fn add_csv_entry(&mut self, entity_type: String, record: (String, String)) -> (r: Result<
        Option<Flushed>,
        ProcessingError,
    >)
        ensures
            added_view(r) == old(self)@.with_index_entry(
                (entity_type@, record.0@, record.1@),
            ).settle_result(),
            final(self)@ == old(self)@.with_index_entry(
                (entity_type@, record.0@, record.1@),
            ).settled(),
    {
        let entry = IndexEntry { entity_type, name: record.0, id: record.1 };
        self.csv_entries.push(entry);
        assert(self@.index =~= old(self)@.index.push(entry@));
        self.settle()
    }

    /// Adds the key-value entry `entry`, and flushes where the key-value buffer is full.
    pub fn add_kv_entry(&mut self, entry: Json) -> (r: Result<Option<Flushed>, ProcessingError>)
        ensures
            added_view(r) == old(self)@.with_record(entry@).settle_result(),
            final(self)@ == old(self)@.with_record(entry@).settled(),
    {
        self.kv_entries.push(entry);
        assert(self@.records =~= old(self)@.records.push(entry@));
        self.settle()
    }

    /// Flushes where the key-value buffer is full.
    fn settle(&mut self) -> (r: Result<Option<Flushed>, ProcessingError>)
        ensures
            added_view(r) == old(self)@.settle_result(),
            final(self)@ == old(self)@.settled(),
    {
        if self.kv_entries.len() >= self.batch_size {
            match self.flush() {
                Ok(flushed) => Ok(Some(flushed)),
                Err(e) => Err(e),
            }
        } else {
            Ok(None)
        }
    }

    /// The bytes of the waiting key-value entries.
    fn encode_records(&self) -> (r: Result<Vec<u8>, ProcessingError>)
        ensures
            match r {
                Ok(bytes) => records_output(self@.records, self@.json_lines) == Some(bytes@),
                Err(e) => records_output(self@.records, self@.json_lines) is None && e
                    == encoding_error(self@.json_lines),
            },
    {
        let ghost records = self@.records;
        let mut bytes: Vec<u8> = Vec::new();
        let mut i: usize = 0;
        assert(records.take(0) =~= Seq::empty());
        while i < self.kv_entries.len()
            invariant
                i <= self.kv_entries.len(),
                records == self@.records,
                records.len() == self.kv_entries@.len(),
                records_output(records.take(i as int), self.json_lines) == Some(bytes@),
            decreases self.kv_entries.len() - i,
        {
            proof {
                let next = records.take(i + 1);
                assert(next.drop_last() =~= records.take(i as int));
                assert(next.last() == self.kv_entries@[i as int]@);
                lemma_records_output_prefix(records, self.json_lines, i + 1);
            }
            if self.json_lines {
                match to_text(&self.kv_entries[i]) {
                    Ok(text) => {
                        let mut line = line_bytes(text.as_str());
                        bytes.append(&mut line);
                    },
                    Err(e) => {
                        return Err(e);
                    },
                }
            } else {
                match to_binary(&self.kv_entries[i]) {
                    Ok(mut encoded) => {
                        bytes.append(&mut encoded);
                    },
                    Err(e) => {
                        return Err(e);
                    },
                }
            }
            i += 1;
        }
        assert(records.take(i as int) =~= records);
        Ok(bytes)
    }

    /// The waiting rows of the sink `sink`.
    fn collect_rows(&self, sink: &str) -> (rows: Vec<(String, String)>)
        ensures
            rows_view(rows@) == rows_of(self@.index, sink@),
    {
        let ghost index = self@.index;
        let mut rows: Vec<(String, String)> = Vec::new();
        let mut j: usize = 0;
        assert(index.take(0) =~= Seq::empty());
        assert(rows_view(rows@) =~= Seq::empty());
        while j < self.csv_entries.len()
            invariant
                j <= self.csv_entries.len(),
                index == self@.index,
                index.len() == self.csv_entries@.len(),
                rows_view(rows@) == rows_of(index.take(j as int), sink@),
            decreases self.csv_entries.len() - j,
        {
            let ghost before = rows_view(rows@);
            proof {
                let next = index.take(j + 1);
                assert(next.drop_last() =~= index.take(j as int));
                assert(next.last() == self.csv_entries@[j as int]@);
            }
            let entry = &self.csv_entries[j];
            if str_eq(entry.entity_type.as_str(), sink) {
                rows.push((entry.name.clone(), entry.id.clone()));
                assert(rows_view(rows@) =~= before.push((entry.name@, entry.id@)));
            }
            j += 1;
        }
        assert(index.take(j as int) =~= index);
        rows
    }

    /// Hands out everything that waits: for each sink its rows, and the bytes of the
    /// key-value entries. Afterwards both buffers are empty. Where an entry cannot be
    /// encoded nothing is handed out and nothing is removed.
    pub fn flush(&mut self) -> (r: Result<Flushed, ProcessingError>)
        ensures
            flushed_view(r) == old(self)@.flush_result(),
            final(self)@ == old(self)@.after_flush(),
    {
        let records = match self.encode_records() {
            Ok(bytes) => bytes,
            Err(e) => {
                return Err(e);
            },
        };
        let record_count = self.kv_entries.len();
        let mut index: Vec<SinkRows> = Vec::new();
        let mut i: usize = 0;
        while i < self.sinks.len()
            invariant
                i <= self.sinks.len(),
                *self == *old(self),
                index@.len() == i,
                forall|k: int|
                    0 <= k < i ==> (#[trigger] index@[k]).entity_type@ == self.sinks@[k]@
                        && rows_view(index@[k].rows@) == rows_of(self@.index, self.sinks@[k]@),
            decreases self.sinks.len() - i,
        {
            let rows = self.collect_rows(self.sinks[i].as_str());
            index.push(SinkRows { entity_type: self.sinks[i].clone(), rows });
            i += 1;
        }
        assert(sinks_view(index@) =~= index_output(self@.sinks, self@.index));
        self.csv_entries.clear();
        self.kv_entries.clear();
        assert(self@.index =~= Seq::empty());
        assert(self@.records =~= Seq::empty());
        Ok(Flushed { index, records, record_count })
    }

    /// Flushes a last time and names the sinks that are to be made durable: all of them.
    pub fn finalize(&mut self) -> (r: Result<Finalized, ProcessingError>)
        ensures
            match r {
                Ok(finalized) => old(self)@.flush_result() == Ok::<FlushedView, ProcessingError>(
                    finalized.last@,
                ) && strings_view(finalized.sinks@) == old(self)@.sinks,
                Err(e) => old(self)@.flush_result() == Err::<FlushedView, ProcessingError>(e),
            },
            final(self)@ == old(self)@.after_flush(),
    {
        let last = match self.flush() {
            Ok(flushed) => flushed,
            Err(e) => {
                return Err(e);
            },
        };
        let mut sinks: Vec<String> = Vec::new();
        let mut i: usize = 0;
        while i < self.sinks.len()
            invariant
                i <= self.sinks.len(),
                sinks@.len() == i,
                forall|k: int| 0 <= k < i ==> (#[trigger] sinks@[k])@ == self.sinks@[k]@,
            decreases self.sinks.len() - i,
        {
            sinks.push(self.sinks[i].clone());
            i += 1;
        }
        assert(strings_view(sinks@) =~= self@.sinks);
        Ok(Finalized { last, sinks })
    }
}

/// Fewer key-value entries than the batch size, added to a writer that holds none, all wait:
/// there is no flush.
pub proof fn lemma_below_batch_size_waits(writer: WriterView, documents: Seq<JsonValue>)
    requires
        writer.records.len() == 0,
        documents.len() < writer.batch_size,
    ensures
        writer.after_records(documents).0 == (WriterView { records: documents, ..writer }),
        writer.after_records(documents).1.len() == 0,
    decreases documents.len(),
{
    if documents.len() == 0 {
        assert(writer.records =~= documents);
    } else {
        lemma_below_batch_size_waits(writer, documents.drop_last());
        assert(documents.drop_last().push(documents.last()) =~= documents);
    }
}

/// Adding exactly as many key-value entries as the batch size to a writer that holds none
/// causes exactly one flush. It holds every entry once, in the order in which they were
/// added, and leaves no entry behind.
pub proof fn lemma_full_batch_flushes_once(writer: WriterView, documents: Seq<JsonValue>)
    requires
        writer.records.len() == 0,
        writer.batch_size >= 1,
        documents.len() == writer.batch_size,
        records_output(documents, writer.json_lines) is Some,
    ensures
        writer.after_records(documents).1.len() == 1,
        writer.after_records(documents).1[0] == (FlushedView {
            index: index_output(writer.sinks, writer.index),
            records: records_output(documents, writer.json_lines)->0,
            record_count: documents.len(),
        }),
        writer.after_records(documents).0 == writer.emptied(),
{
    lemma_below_batch_size_waits(writer, documents.drop_last());
    assert(documents.drop_last().push(documents.last()) =~= documents);
    assert(writer.emptied().records =~= writer.records);
}

/// Adding one key-value entry fewer than the batch size to a writer that holds none causes
/// no flush. The flush of `finalize` then holds every entry once, in the order in which they
/// were added, and leaves no entry behind.
pub proof fn lemma_partial_batch_leaves_with_finalize(writer: WriterView, documents: Seq<JsonValue>)
    requires
        writer.records.len() == 0,
        documents.len() + 1 == writer.batch_size,
        records_output(documents, writer.json_lines) is Some,
    ensures
        writer.after_records(documents).1.len() == 0,
        writer.after_records(documents).0.flush_result() == Ok::<FlushedView, ProcessingError>(
            FlushedView {
                index: index_output(writer.sinks, writer.index),
                records: records_output(documents, writer.json_lines)->0,
                record_count: documents.len(),
            },
        ),
        writer.after_records(documents).0.after_flush() == writer.emptied(),
{
    lemma_below_batch_size_waits(writer, documents);
    assert(writer.emptied().records =~= writer.records);
}

/// An entry that is handed to a writer: an index entry, as entity type, name and identifier,
/// or a key-value entry.
pub ghost enum Entry {
    Index((Seq<char>, Seq<char>, Seq<char>)),
    Record(JsonValue),
}

impl WriterView {
    /// The writer with one more entry in the buffer of its kind.
    pub open spec fn with_entry(self, entry: Entry) -> WriterView {
        match entry {
            Entry::Index(e) => self.with_index_entry(e),
            Entry::Record(document) => self.with_record(document),
        }
    }

    /// The writer after `entries` were added one by one, and the flushes that this caused,
    /// in order.
    pub open spec fn after_entries(self, entries: Seq<Entry>) -> (WriterView, Seq<FlushedView>)
        decreases entries.len(),
    {
        if entries.len() == 0 {
            (self, Seq::empty())
        } else {
            let (before, flushes) = self.after_entries(entries.drop_last());
            let added = before.with_entry(entries.last());
            match added.settle_result() {
                Ok(Some(output)) => (added.settled(), flushes.push(output)),
                _ => (added.settled(), flushes),
            }
        }
    }
}

/// The index entries among `entries`, in order.
pub open spec fn index_entries(entries: Seq<Entry>) -> Seq<(Seq<char>, Seq<char>, Seq<char>)>
    decreases entries.len(),
{
    if entries.len() == 0 {
        Seq::empty()
    } else {
        match entries.last() {
            Entry::Index(e) => index_entries(entries.drop_last()).push(e),
            Entry::Record(_) => index_entries(entries.drop_last()),
        }
    }
}

/// The key-value entries among `entries`, in order.
pub open spec fn record_entries(entries: Seq<Entry>) -> Seq<JsonValue>
    decreases entries.len(),
{
    if entries.len() == 0 {
        Seq::empty()
    } else {
        match entries.last() {
            Entry::Index(_) => record_entries(entries.drop_last()),
            Entry::Record(document) => record_entries(entries.drop_last()).push(document),
        }
    }
}

/// The bytes of the key-value entries that `flushes` handed out, one flush after the other.
pub open spec fn flushed_records(flushes: Seq<FlushedView>) -> Seq<u8>
    decreases flushes.len(),
{
    if flushes.len() == 0 {
        Seq::empty()
    } else {
        flushed_records(flushes.drop_last()) + flushes.last().records
    }
}

/// The rows that `flushes` handed out for the sink at the position `sink`, one flush after
/// the other.
pub open spec fn flushed_rows(flushes: Seq<FlushedView>, sink: int) -> Seq<(Seq<char>, Seq<char>)>
    decreases flushes.len(),
{
    if flushes.len() == 0 {
        Seq::empty()
    } else {
        flushed_rows(flushes.drop_last(), sink) + flushes.last().index[sink].1
    }
}

/// Whatever the batch size and the order of the entries, nothing is lost and nothing leaves
/// twice, as long as every key-value entry can be encoded. What the flushes handed out of
/// the key-value entries, followed by what still waits, is every key-value entry once, in
/// the order in which they were added. And for each sink, the rows that the flushes handed
/// out, followed by those that still wait, are the rows of every index entry of the sink's
/// entity type once, in the order in which they were added.
pub proof fn lemma_every_entry_leaves_once(writer: WriterView, entries: Seq<Entry>)
    requires
        records_output(writer.records + record_entries(entries), writer.json_lines) is Some,
    ensures
        writer.after_entries(entries).0.sinks == writer.sinks,
        writer.after_entries(entries).0.json_lines == writer.json_lines,
        writer.after_entries(entries).0.batch_size == writer.batch_size,
        records_output(writer.after_entries(entries).0.records, writer.json_lines) is Some,
        flushed_records(writer.after_entries(entries).1) + records_output(
            writer.after_entries(entries).0.records,
            writer.json_lines,
        )->0 == records_output(writer.records + record_entries(entries), writer.json_lines)->0,
        forall|sink: int|
            0 <= sink < writer.sinks.len() ==> #[trigger] flushed_rows(
                writer.after_entries(entries).1,
                sink,
            ) + rows_of(writer.after_entries(entries).0.index, writer.sinks[sink]) == rows_of(
                writer.index + index_entries(entries),
                writer.sinks[sink],
            ),
    decreases entries.len(),
{
    let json_lines = writer.json_lines;
    if entries.len() == 0 {
        assert(writer.records + record_entries(entries) =~= writer.records);
        assert(writer.index + index_entries(entries) =~= writer.index);
        assert(flushed_records(Seq::<FlushedView>::empty()) + records_output(
            writer.records,
            json_lines,
        )->0 =~= records_output(writer.records, json_lines)->0);
        assert forall|sink: int| 0 <= sink < writer.sinks.len() implies #[trigger] flushed_rows(
            Seq::<FlushedView>::empty(),
            sink,
        ) + rows_of(writer.index, writer.sinks[sink]) == rows_of(
            writer.index,
            writer.sinks[sink],
        ) by {
            assert(flushed_rows(Seq::<FlushedView>::empty(), sink) + rows_of(
                writer.index,
                writer.sinks[sink],
            ) =~= rows_of(writer.index, writer.sinks[sink]));
        }
    } else {
        let front = entries.drop_last();
        let all_records = writer.records + record_entries(entries);
        let all_index = writer.index + index_entries(entries);
        match entries.last() {
            Entry::Index(e) => {
                assert(all_records =~= writer.records + record_entries(front));
                assert(all_index =~= (writer.index + index_entries(front)).push(e));
            },
            Entry::Record(document) => {
                assert(all_records =~= (writer.records + record_entries(front)).push(document));
                assert(all_records.drop_last() =~= writer.records + record_entries(front));
                assert(all_index =~= writer.index + index_entries(front));
            },
        }
        lemma_every_entry_leaves_once(writer, front);
        let (before, flushes) = writer.after_entries(front);
        let added = before.with_entry(entries.last());
        let waiting = records_output(before.records, json_lines)->0;
        match entries.last() {
            Entry::Index(e) => {
                assert(added.records == before.records);
            },
            Entry::Record(document) => {
                assert(added.records.drop_last() =~= before.records);
            },
        }
        let now_waiting = records_output(added.records, json_lines)->0;
        assert(records_output(added.records, json_lines) is Some);
        assert(flushed_records(flushes) + now_waiting =~= records_output(
            all_records,
            json_lines,
        )->0) by {
            match entries.last() {
                Entry::Index(e) => {},
                Entry::Record(document) => {
                    let bytes = record_bytes(document, json_lines)->0;
                    assert(now_waiting == waiting + bytes);
                    assert(flushed_records(flushes) + (waiting + bytes) =~= flushed_records(
                        flushes,
                    ) + waiting + bytes);
                },
            }
        }
        assert forall|sink: int| 0 <= sink < writer.sinks.len() implies flushed_rows(
            flushes,
            sink,
        ) + rows_of(added.index, writer.sinks[sink]) == rows_of(all_index, writer.sinks[sink]) by {
            let name = writer.sinks[sink];
            assert(flushed_rows(flushes, sink) + rows_of(before.index, name) == rows_of(
                writer.index + index_entries(front),
                name,
            ));
            match entries.last() {
                Entry::Index(e) => {
                    assert(added.index.drop_last() =~= before.index);
                    assert(all_index.drop_last() =~= writer.index + index_entries(front));
                    assert(flushed_rows(flushes, sink) + rows_of(added.index, name) =~= rows_of(
                        all_index,
                        name,
                    ));
                },
                Entry::Record(document) => {
                    assert(added.index == before.index);
                },
            }
        }
        if added.is_full() {
            let output = added.flush_output()->0;
            let after_flushes = flushes.push(output);
            assert(after_flushes.drop_last() =~= flushes);
            assert(added.emptied().records =~= Seq::<JsonValue>::empty());
            assert(flushed_records(after_flushes) + Seq::<u8>::empty() =~= flushed_records(flushes)
                + now_waiting);
            assert forall|sink: int| 0 <= sink < writer.sinks.len() implies #[trigger] flushed_rows(
                after_flushes,
                sink,
            ) + rows_of(added.emptied().index, writer.sinks[sink]) == rows_of(
                all_index,
                writer.sinks[sink],
            ) by {
                let name = writer.sinks[sink];
                assert(output.index[sink].1 == rows_of(added.index, name));
                assert(rows_of(added.emptied().index, name) =~= Seq::<
                    (Seq<char>, Seq<char>),
                >::empty());
                assert(flushed_rows(after_flushes, sink) + Seq::<(Seq<char>, Seq<char>)>::empty()
                    =~= flushed_rows(flushes, sink) + rows_of(added.index, name));
            }
        }
    }
}

/// The rows of a sink among two lists of index entries are its rows among the first, then
/// its rows among the second.
pub proof fn lemma_rows_of_both(
    first: Seq<(Seq<char>, Seq<char>, Seq<char>)>,
    second: Seq<(Seq<char>, Seq<char>, Seq<char>)>,
    sink: Seq<char>,
)
    ensures
        rows_of(first + second, sink) == rows_of(first, sink) + rows_of(second, sink),
    decreases second.len(),
{
    if second.len() == 0 {
        assert(first + second =~= first);
        assert(rows_of(first, sink) + rows_of(second, sink) =~= rows_of(first, sink));
    } else {
        lemma_rows_of_both(first, second.drop_last(), sink);
        assert((first + second).drop_last() =~= first + second.drop_last());
        assert(rows_of(first + second, sink) =~= rows_of(first, sink) + rows_of(second, sink));
    }
}

/// What an entry gives to the rows of the sink `sink`: its name and identifier where it is
/// an index entry of that entity type, else nothing.
pub open spec fn row_share(sink: Seq<char>) -> spec_fn(Entry) -> Multiset<(Seq<char>, Seq<char>)> {
    |entry: Entry|
        match entry {
            Entry::Index(e) => if e.0 == sink {
                Multiset::singleton((e.1, e.2))
            } else {
                Multiset::empty()
            },
            Entry::Record(_) => Multiset::empty(),
        }
}

/// What an entry gives to the key-value store: itself where it is a key-value entry, else
/// nothing.
pub open spec fn record_share() -> spec_fn(Entry) -> Multiset<JsonValue> {
    |entry: Entry|
        match entry {
            Entry::Index(_) => Multiset::empty(),
            Entry::Record(document) => Multiset::singleton(document),
        }
}

/// The rows of a sink among some entries are what the entries give to the sink, each as
/// often as it was added.
pub proof fn lemma_rows_are_gathered(entries: Seq<Entry>, sink: Seq<char>)
    ensures
        rows_of(index_entries(entries), sink).to_multiset() == gathered(entries, row_share(sink)),
    decreases entries.len(),
{
    if entries.len() == 0 {
        assert(rows_of(index_entries(entries), sink).to_multiset() =~= Multiset::empty()) by {
            to_multiset_len(rows_of(index_entries(entries), sink));
        }
    } else {
        let front = entries.drop_last();
        lemma_rows_are_gathered(front, sink);
        match entries.last() {
            Entry::Index(e) => {
                assert(index_entries(entries).drop_last() =~= index_entries(front));
                if e.0 == sink {
                    to_multiset_build(rows_of(index_entries(front), sink), (e.1, e.2));
                    assert(rows_of(index_entries(entries), sink).to_multiset() =~= gathered(
                        entries,
                        row_share(sink),
                    ));
                }
            },
            Entry::Record(_) => {},
        }
    }
}

/// The key-value entries among some entries are what the entries give to the store, each as
/// often as it was added.
pub proof fn lemma_records_are_gathered(entries: Seq<Entry>)
    ensures
        record_entries(entries).to_multiset() == gathered(entries, record_share()),
    decreases entries.len(),
{
    if entries.len() == 0 {
        assert(record_entries(entries).to_multiset() =~= Multiset::empty()) by {
            to_multiset_len(record_entries(entries));
        }
    } else {
        let front = entries.drop_last();
        lemma_records_are_gathered(front);
        match entries.last() {
            Entry::Index(_) => {},
            Entry::Record(document) => {
                to_multiset_build(record_entries(front), document);
                assert(record_entries(entries).to_multiset() =~= gathered(entries, record_share()));
            },
        }
    }
}

/// The order in which entries reach the writer does not change what leaves it. Two runs
/// that hand the same entries to a writer, in whatever order, see the same rows leave or
/// wait for each sink, each as often, and the same key-value entries leave or wait, each
/// as often.
pub proof fn lemma_order_of_entries_is_immaterial(
    writer: WriterView,
    entries: Seq<Entry>,
    reordered: Seq<Entry>,
)
    requires
        entries.to_multiset() == reordered.to_multiset(),
        records_output(writer.records + record_entries(entries), writer.json_lines) is Some,
        records_output(writer.records + record_entries(reordered), writer.json_lines) is Some,
    ensures
        forall|sink: int|
            0 <= sink < writer.sinks.len() ==> (#[trigger] flushed_rows(
                writer.after_entries(entries).1,
                sink,
            ) + rows_of(
                writer.after_entries(entries).0.index,
                writer.sinks[sink],
            )).to_multiset() == (flushed_rows(writer.after_entries(reordered).1, sink) + rows_of(
                writer.after_entries(reordered).0.index,
                writer.sinks[sink],
            )).to_multiset(),
        (writer.records + record_entries(entries)).to_multiset() == (writer.records
            + record_entries(reordered)).to_multiset(),
{
    lemma_every_entry_leaves_once(writer, entries);
    lemma_every_entry_leaves_once(writer, reordered);
    lemma_records_are_gathered(entries);
    lemma_records_are_gathered(reordered);
    lemma_gathered_ignores_order(entries, reordered, record_share());
    lemma_multiset_commutative(writer.records, record_entries(entries));
    lemma_multiset_commutative(writer.records, record_entries(reordered));
    assert forall|sink: int| 0 <= sink < writer.sinks.len() implies (#[trigger] flushed_rows(
        writer.after_entries(entries).1,
        sink,
    ) + rows_of(writer.after_entries(entries).0.index, writer.sinks[sink])).to_multiset() == (
    flushed_rows(writer.after_entries(reordered).1, sink) + rows_of(
        writer.after_entries(reordered).0.index,
        writer.sinks[sink],
    )).to_multiset() by {
        let name = writer.sinks[sink];
        let one = index_entries(entries);
        let other = index_entries(reordered);
        assert(flushed_rows(writer.after_entries(reordered).1, sink) + rows_of(
            writer.after_entries(reordered).0.index,
            name,
        ) == rows_of(writer.index + other, name));
        lemma_rows_of_both(writer.index, one, name);
        lemma_rows_of_both(writer.index, other, name);
        lemma_rows_are_gathered(entries, name);
        lemma_rows_are_gathered(reordered, name);
        lemma_gathered_ignores_order(entries, reordered, row_share(name));
        lemma_multiset_commutative(rows_of(writer.index, name), rows_of(one, name));
        lemma_multiset_commutative(rows_of(writer.index, name), rows_of(other, name));
    }
}

/// A prefix of entries that can all be encoded can be encoded; so where a prefix cannot, the
/// whole cannot.
pub proof fn lemma_records_output_prefix(records: Seq<JsonValue>, json_lines: bool, n: int)
    requires
        0 <= n <= records.len(),
    ensures
        records_output(records.take(n), json_lines) is None ==> records_output(
            records,
            json_lines,
        ) is None,
    decreases records.len() - n,
{
    if n < records.len() {
        let next = records.take(n + 1);
        assert(next.drop_last() =~= records.take(n));
        lemma_records_output_prefix(records, json_lines, n + 1);
    } else {
        assert(records.take(n) =~= records);
    }
}

} // verus!
