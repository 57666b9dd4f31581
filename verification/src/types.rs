//! The data model: identifiers, schemas, entries and queries.

pub mod component;
pub mod encoding;
pub mod guards;
pub mod id;
pub mod names;
pub mod query;
pub mod schema;
pub mod value;
