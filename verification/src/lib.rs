//! Read-only, structured access to a set of text documents ("tablets"),
//! each subdivided into ordered sub-sections ("shards") by an in-band
//! separator line, together with a renderer that turns any tablet or
//! shard into a normalized markdown string.
//!
//! A document lives in the library as a [`Document`]: its path and its
//! lines, handed in by the caller, who reads them from wherever the
//! documents are kept. A [`Tablet`] addresses a whole document or a
//! sub-section of one by path plus an inclusive line range; the segmenter
//! partitions a tablet's range on separator lines into [`Shard`]s, and
//! the [`Transcriptor`] renders the addressed lines. The [`Registry`]
//! enumerates the whole-document references of a document collection and,
//! through the segmenter, every shard of every document.

pub mod registry;
pub mod segment;
pub mod tablet;
pub mod text;
pub mod transcript;

pub use registry::Document;
pub use registry::Registry;
pub use segment::Shards;
pub use tablet::Shard;
pub use tablet::Tablet;
pub use transcript::Transcriptor;
