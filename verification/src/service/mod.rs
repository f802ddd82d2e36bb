//! The service: documents, searches, and named resources.
pub mod agreement;
pub mod answer;
pub mod continuation;
pub mod document_laws;
pub mod documents;
pub mod facets;
pub mod fusion;
pub mod highlight;
pub mod highlight_laws;
pub mod highlights;
pub mod laws;
pub mod option_laws;
pub mod order_laws;
pub mod ordering;
pub mod paging;
pub mod parsing;
pub mod request_laws;
pub mod resources;
pub mod scalar;
pub mod result_laws;
pub mod schema;
pub mod schema_laws;
pub mod search;
pub mod semantic_options;
pub mod state;
pub mod suggest;
pub mod suggest_laws;
pub mod synonym_laws;
pub mod synonyms;
pub mod types;
pub mod validation;
pub mod vector_laws;
pub mod vectors;
