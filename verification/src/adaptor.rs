//! What a storage has to offer, and the storage that lives in memory.

pub mod memory;
pub mod types;

use crate::error::{Error, ErrorView};
use crate::types::guards::Valid;
use crate::types::query::{Query, QueryView};
use crate::types::schema::{
    EntryView, Schema, SchemaEntries, SchemaView, SetSchema, SetSchemaView,
};
use crate::types::value::Value;
use vstd::prelude::*;

verus! {

/// A request to read some fields of the entries of one schema.
#[derive(Debug)]
pub struct ReadSchemaData {
    pub schema: String,
    pub fields: Vec<String>,
    pub filter: Option<ReadSchemaDataFilter>,
}

/// Which entries a [`ReadSchemaData`] wants.
#[derive(Debug)]
#[non_exhaustive]
pub enum ReadSchemaDataFilter {
    Equal { field: String, value: Value },
    And(Vec<ReadSchemaDataFilter>),
    Or(Vec<ReadSchemaDataFilter>),
}

/// The mathematical form of what a call gives back.
pub open spec fn outcome<T: View>(r: Result<T, Error>) -> Result<T::V, ErrorView> {
    match r {
        Ok(value) => Ok(value@),
        Err(e) => Err(e@),
    }
}

/// A storage. What it is handed has been validated: it checks no rule
/// again. Where it fails for reasons of its own it says so with
/// [`Error::Unknown`].
pub trait Adaptor: Sized {
    /// The schemas that the storage holds, by name.
    spec fn schemas(&self) -> Map<Seq<char>, SchemaView>;

    /// Whether looking up a schema in this storage never fails.
    spec fn reliable(&self) -> bool;

    /// Whether a request to register `schema` can leave the storage as
    /// `after` and give `r`.
    spec fn registers(
        &self,
        schema: SetSchemaView,
        after: &Self,
        r: Result<SchemaView, ErrorView>,
    ) -> bool;

    /// Whether a request to store `entries` under `schema` can leave the
    /// storage as `after` and give `r`.
    spec fn writes(
        &self,
        schema: Seq<char>,
        entries: Seq<EntryView>,
        after: &Self,
        r: Result<Seq<EntryView>, ErrorView>,
    ) -> bool;

    /// Whether `query` can give `r`.
    spec fn reads(&self, query: QueryView, r: Result<Seq<EntryView>, ErrorView>) -> bool;

    /// Registers a schema under a tag that the storage picks. Where the
    /// storage fails, its schemas stay as they were.
    fn create_schema(&mut self, schema: Valid<SetSchema>) -> (r: Result<Schema, Error>)
        ensures
            old(self).registers(schema.inner()@, final(self), outcome(r)),
            match r {
                Ok(made) => {
                    &&& made@.name == schema.inner()@.name
                    &&& made@.fields == schema.inner()@.fields
                    &&& final(self).schemas() == old(self).schemas().insert(made@.name, made@)
                },
                Err(e) => e@ is Unknown && final(self).schemas() == old(self).schemas(),
            },
    ;

    /// The schema of the given name, if the storage holds one.
    fn get_schema(&self, name: &str) -> (r: Result<Option<Schema>, Error>)
        ensures
            match r {
                Ok(Some(found)) => self.schemas().contains_key(name@) && self.schemas()[name@]
                    == found@,
                Ok(None) => !self.schemas().contains_key(name@),
                Err(e) => e@ is Unknown && !self.reliable(),
            },
    ;

    /// Stores entries of the schema of the given name, and what they hold
    /// for other schemas. Gives the entries back.
    fn create_schema_entries(&mut self, schema: String, entries: SchemaEntries) -> (r: Result<
        SchemaEntries,
        Error,
    >)
        ensures
            final(self).schemas() == old(self).schemas(),
            old(self).writes(schema@, entries@, final(self), outcome(r)),
            match r {
                Ok(written) => written@ == entries@,
                Err(_) => true,
            },
    ;

    /// Reads what a query asks for.
    fn read_schema_data(&self, query: Query) -> (r: Result<SchemaEntries, Error>)
        ensures
            self.reads(query@, outcome(r)),
    ;
}

} // verus!
