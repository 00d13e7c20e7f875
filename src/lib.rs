//! Embedding-backed semantic store: the verified core.
//!
//! The library covers the parts of the store that decide and transform:
//! the metadata mapping attached to every record, the expansion of
//! documents into chunk records, the reconstruction of search hits, the
//! packing of tokenized text for local inference, the checks on embedding
//! batches and the table decisions of the vector store.
pub mod embedding;
pub mod ingest;
pub mod metadata;
pub mod packing;
pub mod response;
pub mod results;
pub mod store;
