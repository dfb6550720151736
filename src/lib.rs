//! Structured API documentation from annotation text: a parser for the
//! annotation grammar, the tagged binary log its records are stored in, and
//! the aggregation that rebuilds and groups a project's document.
pub mod api_doc;
pub mod document;
pub mod file;
pub mod project;
pub mod session;
pub mod text;
