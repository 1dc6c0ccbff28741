//! Extraction of typed records from a line-delimited JSON dump of a knowledge base.
//!
//! A run takes the dump line by line. `pipeline` decides what a line holds and drafts, for
//! each entity type that a record belongs to, what will be written. `extract` reads the
//! claims of the record by the rules of `rules`, and `image` gives the addresses of its
//! images. `resolver` replaces the identifiers among the attributes by labels, from a cache
//! that survives restarts. `export` makes the index names and the key-value entry of a
//! draft, and `batched_writer` collects both and hands them out in batches. `progress`
//! measures how far the run has come. `order` holds why the order in which workers take
//! the lines, and hand over their entries, does not change what is written.
//!
//! The library computes and decides. Reading the dump, asking the network and writing the
//! files are left to the program that calls it. JSON is read and written by `serde_json`
//! and `rmp_serde` behind `codec`; `json` holds documents as plain data.

pub mod batched_writer;
pub mod codec;
pub mod error;
pub mod export;
pub mod extract;
pub mod image;
pub mod json;
pub mod order;
pub mod pipeline;
pub mod progress;
pub mod resolver;
pub mod rules;
pub mod text;
