//! The verified core of a local search-service emulator.
pub mod api;
pub mod config;
pub mod encoding;
pub mod error;
pub mod filter;
pub mod json;
pub mod query;
pub mod semantic;
pub mod service;
pub mod sorting;
pub mod storage;
pub mod text;
pub mod text_laws;
pub mod text_set;
