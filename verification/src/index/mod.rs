//! Full-text search: schemas, documents, queries and highlighting.

pub mod analyzer;
pub mod collection_index;
pub mod entries;
pub mod fields;
pub mod highlighting;
pub mod queries;
pub mod query_builder;
pub mod schema_builder;
pub mod tantivy_index;
