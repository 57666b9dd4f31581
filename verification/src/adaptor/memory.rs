//! The storage that lives in memory.

pub mod components;
pub mod schema;

use crate::adaptor::memory::components::ComponentRepository;
use crate::adaptor::memory::schema::{
    kinds_unique, read, stored, RowView, SchemaRepository, Tables,
};
use crate::adaptor::Adaptor;
use crate::error::{Error, ErrorView};
use crate::types::guards::Valid;
use crate::types::id::Kind;
use crate::types::query::{Query, QueryView};
use crate::types::schema::{
    EntryView, Schema, SchemaEntries, SchemaView, SetSchema, SetSchemaView,
};
use vstd::prelude::*;

verus! {

/// A database that lives in memory and is gone with the process.
#[derive(Debug)]
pub struct MemoryDatabase {
    schemas: SchemaRepository,
    #[allow(dead_code)]
    components: ComponentRepository,
}

impl MemoryDatabase {
    /// The rows of each schema.
    pub closed spec fn tables(self) -> Tables {
        self.schemas.tables()
    }

    /// The number that the next schema gets for its tag.
    pub closed spec fn next_kind(self) -> u16 {
        self.schemas.next_kind()
    }

    /// States what holds of every database in memory: each schema has a
    /// tag of its own, with a number below the next one.
    pub fn kinds_are_unique(&self)
        ensures
            kinds_unique(self.schemas(), self.next_kind()),
    {
        self.schemas.kinds_are_unique()
    }

    /// A database without schemas.
    pub fn new() -> (r: MemoryDatabase)
        ensures
            r.schemas() == Map::<Seq<char>, SchemaView>::empty(),
            r.tables() == Map::<Seq<char>, Seq<RowView>>::empty(),
            r.next_kind() == 0,
    {
        MemoryDatabase { schemas: SchemaRepository::new(), components: ComponentRepository::new() }
    }
}

impl Adaptor for MemoryDatabase {
    closed spec fn schemas(&self) -> Map<Seq<char>, SchemaView> {
        self.schemas.schemas()
    }

    open spec fn reliable(&self) -> bool {
        true
    }

    /// The schema gets the next number for its tag and no rows, unless
    /// the numbers have run out.
    open spec fn registers(
        &self,
        schema: SetSchemaView,
        after: &Self,
        r: Result<SchemaView, ErrorView>,
    ) -> bool {
        match r {
            Ok(made) => {
                &&& self.next_kind() <= Kind::max_number()
                &&& made.name == schema.name
                &&& made.fields == schema.fields
                &&& made.kind == Kind::packed(false, self.next_kind())
                &&& !made.kind.component()
                &&& made.kind.number() == self.next_kind()
                &&& after.next_kind() == self.next_kind() + 1
                &&& after.schemas() == self.schemas().insert(schema.name, made)
                &&& after.tables() == self.tables().insert(schema.name, Seq::empty())
            },
            Err(e) => {
                &&& self.next_kind() > Kind::max_number()
                &&& e == SchemaRepository::exhausted()
                &&& after.next_kind() == self.next_kind()
                &&& after.schemas() == self.schemas()
                &&& after.tables() == self.tables()
            },
        }
    }

    /// The entries are written as [`stored`] says and given back; what is
    /// reported is why the writing stopped.
    open spec fn writes(
        &self,
        schema: Seq<char>,
        entries: Seq<EntryView>,
        after: &Self,
        r: Result<Seq<EntryView>, ErrorView>,
    ) -> bool {
        &&& after.schemas() == self.schemas()
        &&& after.next_kind() == self.next_kind()
        &&& stored(self.tables(), schema, entries) == (
            after.tables(),
            match r {
                Ok(_) => None,
                Err(e) => Some(e),
            },
        )
        &&& r is Ok ==> r == Ok::<Seq<EntryView>, ErrorView>(entries)
    }

    /// A query gives what [`read`] says.
    open spec fn reads(&self, query: QueryView, r: Result<Seq<EntryView>, ErrorView>) -> bool {
        r == read(self.tables(), query)
    }

    /// Registers a schema under the next tag and gives it no rows. Fails
    /// only when the numbers for tags have run out.
    fn create_schema(&mut self, schema: Valid<SetSchema>) -> (r: Result<Schema, Error>)
        ensures
            match r {
                Ok(made) => {
                    &&& old(self).next_kind() <= Kind::max_number()
                    &&& made.kind == Kind::packed(false, old(self).next_kind())
                    &&& !made.kind.component()
                    &&& made.kind.number() == old(self).next_kind()
                    &&& final(self).next_kind() == old(self).next_kind() + 1
                    &&& final(self).tables() == old(self).tables().insert(made@.name, Seq::empty())
                },
                Err(e) => {
                    &&& old(self).next_kind() > Kind::max_number()
                    &&& e@ == SchemaRepository::exhausted()
                    &&& final(self).next_kind() == old(self).next_kind()
                    &&& final(self).tables() == old(self).tables()
                },
            },
    {
        self.schemas.create_schema(schema)
    }

    /// The schema of the given name, if there is one. Does not fail.
    fn get_schema(&self, name: &str) -> (r: Result<Option<Schema>, Error>)
        ensures
            r is Ok,
    {
        self.schemas.get_schema(name)
    }

    /// Writes the entries, and what they hold for other schemas, and
    /// gives them back.
    fn create_schema_entries(&mut self, schema: String, entries: SchemaEntries) -> (r: Result<
        SchemaEntries,
        Error,
    >)
        ensures
            final(self).next_kind() == old(self).next_kind(),
            stored(old(self).tables(), schema@, entries@) == (
                final(self).tables(),
                match r {
                    Ok(_) => None,
                    Err(e) => Some(e@),
                },
            ),
    {
        let copy = entries.clone();
        match self.schemas.create_schema_entries(schema, copy) {
            Ok(_) => Ok(entries),
            Err(e) => Err(e),
        }
    }

    /// Reads what the query asks for.
    fn read_schema_data(&self, query: Query) -> (r: Result<SchemaEntries, Error>)
        ensures
            match r {
                Ok(entries) => read(self.tables(), query@) == Ok::<Seq<EntryView>, ErrorView>(
                    entries@,
                ),
                Err(e) => read(self.tables(), query@) == Err::<Seq<EntryView>, ErrorView>(e@),
            },
    {
        self.schemas.read_schema_data(query)
    }
}

} // verus!
