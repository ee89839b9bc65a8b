//! Semantic search core of a clipboard manager: a bounded in-memory vector
//! index with least-recently-used eviction and exact top-k ranking, the
//! durable byte layout of embeddings, the bulk-indexing state machine and the
//! decisions of the query path and of the model download.
//!
//! Embedding components and similarity scores are carried as IEEE-754
//! single-precision bit patterns (`u32`); the floating-point arithmetic that
//! produces them happens outside this library.

pub mod backfill;
pub mod clipboard;
pub mod codec;
pub mod embedding;
pub mod error;
pub mod history;
pub mod image;
pub mod index_laws;
pub mod logger;
pub mod model;
pub mod monitor;
pub mod query;
pub mod ranking;
pub mod score;
pub mod settings;
pub mod status;
pub mod vector_index;
pub mod window_config;
