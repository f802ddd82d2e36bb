//! OData-style `$filter` expressions: their syntax, what they mean, and their
//! validation against an index schema.
pub mod date;
pub mod date_laws;
pub mod eval;
pub mod expr;
pub mod iso;
pub mod laws;
pub mod parser;
pub mod parser_laws;
pub mod token;
pub mod token_laws;
pub mod validate;
pub mod validate_laws;
