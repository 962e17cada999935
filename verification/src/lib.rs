//! A per-user semantic memory index over markdown notes: incremental
//! re-indexing with change detection, structure-aware chunking, fixed-
//! point embedding vectors, and tenant-scoped similarity search over a
//! persistent SQLite store, together with the command handling and
//! session bookkeeping of the chat channels around it.

pub mod backend;
pub mod channels;
pub mod chunk;
pub mod cursor;
pub mod embedding;
pub mod errors;
pub mod hashing;
pub mod memory;
pub mod store;
pub mod text;
