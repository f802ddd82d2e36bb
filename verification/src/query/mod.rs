//! Full-text queries: their syntax, and the analysis of text.
pub mod analyzer_laws;
pub mod analyzers;
pub mod clause_laws;
pub mod engine;
pub mod fulltext;
pub mod lucene;
pub mod lucene_laws;
pub mod nesting;
pub mod plan;
pub mod simple;
pub mod text_laws;
