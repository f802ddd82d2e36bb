//! Index definitions, documents, and their storage.
pub mod definition;
pub mod document;
pub mod field_type;
pub mod index;
pub mod keyed;
pub mod laws;
pub mod memory;
