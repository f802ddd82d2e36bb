//! The HTTP surface: paths, request bodies, and responses.
pub mod bodies;
pub mod health;
pub mod laws;
pub mod request_laws;
pub mod requests;
pub mod responses;
pub mod segments;
