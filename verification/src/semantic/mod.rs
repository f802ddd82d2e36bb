//! Semantic search: configurations, queries, and text extraction.
pub mod answers;
pub mod captions;
pub mod config;
pub mod config_laws;
pub mod laws;
pub mod query;
pub mod reranker;
pub mod selection;
pub mod sentences;
