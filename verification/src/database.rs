//! The database: what callers work with.

use crate::adaptor::memory::schema::RowView;
use crate::adaptor::memory::MemoryDatabase;
use crate::adaptor::{outcome, Adaptor};
use crate::error::{Error, ErrorView};
use crate::types::guards::Valid;
use crate::types::query::Query;
use crate::types::schema::{EntryView, Schema, SchemaEntries, SchemaView, SetSchema};
use crate::validation::{
    checked, completes, read_error, validate_entries, validate_query,
};
use vstd::prelude::*;

verus! {

/// A database over a storage. Every request is checked here before the
/// storage sees it.
#[derive(Debug)]
pub struct Database<A: Adaptor> {
    pub adaptor: A,
}

/// Where a database keeps what it stores.
#[derive(Debug, Clone, Copy, PartialEq, Eq, Structural)]
pub enum DatabaseKind {
    Memory,
    Postgres,
}

/// What is reported when a schema of the name is there already: to change
/// a schema is not done yet.
pub open spec fn update_refused() -> ErrorView {
    ErrorView::NotImplemented("schema update"@)
}

impl Database<MemoryDatabase> {
    /// A database that lives in memory, without schemas.
    pub fn new_memory() -> (r: Self)
        ensures
            r.adaptor.schemas() == Map::<Seq<char>, SchemaView>::empty(),
            r.adaptor.tables() == Map::<Seq<char>, Seq<RowView>>::empty(),
            r.adaptor.next_kind() == 0,
    {
        Database { adaptor: MemoryDatabase::new() }
    }

    /// Where this database keeps what it stores: in memory.
    pub fn kind(&self) -> (r: DatabaseKind)
        ensures
            r == DatabaseKind::Memory,
    {
        DatabaseKind::Memory
    }
}

impl<A: Adaptor> Database<A> {
    /// A database over the given storage.
    pub fn new(adaptor: A) -> (r: Self)
        ensures
            r.adaptor == adaptor,
    {
        Database { adaptor }
    }

    /// Registers a new schema. Where a schema of the name is there
    /// already, nothing is registered and the request is refused.
    pub fn create_schema(&mut self, schema: SetSchema) -> (r: Result<Schema, Error>)
        ensures
            match r {
                Ok(made) => {
                    &&& !old(self).adaptor.schemas().contains_key(schema@.name)
                    &&& made@.name == schema@.name
                    &&& made@.fields == schema@.fields
                    &&& final(self).adaptor.schemas() == old(self).adaptor.schemas().insert(
                        schema@.name,
                        made@,
                    )
                },
                Err(e) => {
                    &&& final(self).adaptor.schemas() == old(self).adaptor.schemas()
                    &&& e@ is Unknown || (e@ == update_refused()
                        && old(self).adaptor.schemas().contains_key(schema@.name))
                },
            },
            if old(self).adaptor.schemas().contains_key(schema@.name) {
                &&& r matches Err(e) && (e@ == update_refused() || (e@ is Unknown
                    && !old(self).adaptor.reliable()))
                &&& final(self).adaptor == old(self).adaptor
            } else {
                ||| {
                    &&& r matches Err(e) && e@ is Unknown && !old(self).adaptor.reliable()
                    &&& final(self).adaptor == old(self).adaptor
                }
                ||| old(self).adaptor.registers(schema@, &final(self).adaptor, outcome(r))
            },
    {
        match self.adaptor.get_schema(schema.name.as_str()) {
            Err(e) => Err(e),
            Ok(Some(_)) => Err(Error::NotImplemented("schema update".to_owned())),
            Ok(None) => self.adaptor.create_schema(Valid::assume_valid(schema)),
        }
    }

    /// The schema of the given name, if there is one.
    pub fn get_schema(&self, name: &str) -> (r: Result<Option<Schema>, Error>)
        ensures
            match r {
                Ok(Some(found)) => self.adaptor.schemas().contains_key(name@)
                    && self.adaptor.schemas()[name@] == found@,
                Ok(None) => !self.adaptor.schemas().contains_key(name@),
                Err(e) => e@ is Unknown && !self.adaptor.reliable(),
            },
    {
        self.adaptor.get_schema(name)
    }

    /// Checks and completes `entries`, and has the storage store them
    /// under the schema of the given name. Where something is wrong with
    /// them, or the storage fails to look a schema up, the storage is
    /// left as it was. Else the storage is handed the completed entries,
    /// and what it gives back is given back.
    pub fn create_schema_entries(&mut self, schema: String, entries: SchemaEntries) -> (r: Result<
        SchemaEntries,
        Error,
    >)
        ensures
            final(self).adaptor.schemas() == old(self).adaptor.schemas(),
            match checked(old(self).adaptor.schemas(), schema@, entries@) {
                Some(wrong) => {
                    &&& r matches Err(e) && (e@ == wrong || (e@ is Unknown
                        && !old(self).adaptor.reliable()))
                    &&& final(self).adaptor == old(self).adaptor
                },
                None => {
                    ||| {
                        &&& r matches Err(e) && e@ is Unknown && !old(self).adaptor.reliable()
                        &&& final(self).adaptor == old(self).adaptor
                    }
                    ||| exists|complete: Seq<EntryView>|
                        {
                            &&& completes(old(self).adaptor.schemas(), schema@, entries@, complete)
                            &&& #[trigger] old(self).adaptor.writes(
                                schema@,
                                complete,
                                &final(self).adaptor,
                                outcome(r),
                            )
                        }
                },
            },
            r matches Ok(made) ==> completes(
                old(self).adaptor.schemas(),
                schema@,
                entries@,
                made@,
            ),
    {
        match validate_entries(&self.adaptor, schema.as_str(), &entries) {
            Err(e) => Err(e),
            Ok(complete) => self.adaptor.create_schema_entries(schema, complete),
        }
    }

    /// Checks `query`, and has the storage read what it asks for. Where
    /// something is wrong with the query the storage is not asked.
    pub fn read_schema_data(&self, query: Query) -> (r: Result<SchemaEntries, Error>)
        ensures
            match read_error(self.adaptor.schemas(), query@) {
                Some(wrong) => r matches Err(e) && (e@ == wrong || (e@ is Unknown
                    && !self.adaptor.reliable())),
                None => {
                    ||| r matches Err(e) && e@ is Unknown && !self.adaptor.reliable()
                    ||| self.adaptor.reads(query@, outcome(r))
                },
            },
    {
        match validate_query(&self.adaptor, &query) {
            Err(e) => Err(e),
            Ok(_) => self.adaptor.read_schema_data(query),
        }
    }
}

} // verus!
