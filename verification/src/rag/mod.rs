//! The retrieval index: documents, the stores that hold them, and the facade
//! that the rest of the program talks to.
//!
//! Embeddings are carried as the bit patterns of their components and
//! similarities as fixed-point numbers, in millionths: the arithmetic on the
//! vectors themselves is done by the program around the library.

pub mod document;
pub mod store;
pub mod hnsw_store;
pub mod stats;
pub mod snippet;
pub mod embeddings;
pub mod system;

pub use document::{Document, Metadata, Score};
pub use stats::RagStats;
pub use store::{LinearVectorStore, StoreStats, VectorStore};
pub use system::RagSystem;
