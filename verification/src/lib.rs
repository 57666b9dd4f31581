//! A schema-driven data engine: typed identifiers, schemas, entries and
//! queries, with an in-memory storage adaptor.

pub mod adaptor;
pub mod database;
pub mod error;
pub mod fields;
pub mod memory;
pub mod postgres;
pub mod types;
pub mod validation;

pub use crate::database::{Database, DatabaseKind};
pub use crate::postgres::Config;
pub use crate::error::Error;
