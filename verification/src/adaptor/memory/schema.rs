//! Schemas and their entries, held in memory.

use crate::error::{Error, ErrorView};
use crate::types::names::{
    has_name, lemma_held_at_rank, lemma_same_names, lemma_to_map, lemma_viewed_with_name,
    lemma_with_name, named, put,
    rank, same_names, search, sorted, to_map, value_of, viewed, with_name,
};
use crate::types::guards::Valid;
use crate::types::id::Kind;
use crate::types::query::{FieldQuery, FieldQueryView, Query, QueryFields, QueryView};
use crate::types::schema::{
    EntryView, FieldValueView, Schema, SchemaEntries, SchemaEntry, SchemaFieldValue, SchemaView,
    SetSchema,
};
use crate::types::value::{Json, Value};
use vstd::prelude::*;

verus! {

/// The mathematical form of a stored row: names and values, in rising
/// order of the names.
pub type RowView = Seq<(Seq<char>, Json)>;

/// The mathematical form of what is stored: for each schema its rows, in
/// the order in which they came.
pub type Tables = Map<Seq<char>, Seq<RowView>>;

/// The row that is stored for an entry: its values, without the entries
/// of other schemas that it holds.
pub open spec fn flat(entry: EntryView) -> RowView
    decreases entry.len(),
{
    if entry.len() == 0 {
        Seq::empty()
    } else {
        let rest = flat(entry.drop_last());
        match entry.last().1 {
            FieldValueView::Value(value) => rest.push((entry.last().0, value)),
            FieldValueView::Entries(_) => rest,
        }
    }
}

/// The rows that are stored for a list of entries.
pub open spec fn rows(entries: Seq<EntryView>) -> Seq<RowView> {
    Seq::new(entries.len(), |i: int| flat(entries[i]))
}

/// What is stored after `entries` were written under `schema`, and why the
/// writing stopped, if it did. The rows of the entries go to the end of
/// the schema's rows. After that, what the entries hold for other schemas
/// is written in the same way under those schemas' names, entry by entry
/// and name by name. Writing stops at the first schema that has no rows
/// to add to; what was written before stays.
pub open spec fn stored(tables: Tables, schema: Seq<char>, entries: Seq<EntryView>) -> (
    Tables,
    Option<ErrorView>,
)
    decreases entries, entries.len() + 1, 0int,
{
    if !tables.contains_key(schema) {
        (tables, Some(ErrorView::SchemaNotFound(schema)))
    } else {
        fanned(tables.insert(schema, tables[schema] + rows(entries)), entries, 0, 0)
    }
}

/// What is stored after the entries of other schemas that `entries` hold
/// were written, from the `j`-th name of the `i`-th entry on.
pub open spec fn fanned(tables: Tables, entries: Seq<EntryView>, i: int, j: int) -> (
    Tables,
    Option<ErrorView>,
)
    decreases entries, entries.len() - i, (if 0 <= i < entries.len() {
        entries[i].len() - j
    } else {
        0
    }),
{
    if i < 0 || j < 0 || i >= entries.len() {
        (tables, None)
    } else if j >= entries[i].len() {
        fanned(tables, entries, i + 1, 0)
    } else {
        match entries[i][j].1 {
            FieldValueView::Value(_) => fanned(tables, entries, i, j + 1),
            FieldValueView::Entries(nested) => {
                let (written, error) = stored(tables, entries[i][j].0, nested);
                if error is Some {
                    (written, error)
                } else {
                    fanned(written, entries, i, j + 1)
                }
            },
        }
    }
}

/// A stored row.
pub type Row = Vec<(String, Value)>;

/// The mathematical form of a list of stored rows.
pub open spec fn rows_view(rows: Seq<Row>) -> Seq<RowView> {
    Seq::new(rows.len(), |i: int| viewed(rows[i]@))
}

/// The mathematical form of the stored rows of all schemas, by the
/// schemas' names in rising order.
pub open spec fn tables_view(tables: Seq<(String, Vec<Row>)>) -> Seq<(Seq<char>, Seq<RowView>)> {
    Seq::new(tables.len(), |i: int| (tables[i].0@, rows_view(tables[i].1@)))
}

/// Whether the names of every row rise.
pub open spec fn rows_ok(rows: Seq<Row>) -> bool {
    forall|i: int| 0 <= i < rows.len() ==> sorted(named((#[trigger] rows[i])@))
}

/// Whether the names of the schemas rise, and those of every row.
pub open spec fn tables_ok(tables: Seq<(String, Vec<Row>)>) -> bool {
    &&& sorted(named(tables))
    &&& forall|i: int| 0 <= i < tables.len() ==> rows_ok((#[trigger] tables[i]).1@)
}

/// The row that is stored for an entry.
fn flatten(entry: &SchemaEntry) -> (row: Row)
    ensures
        viewed(row@) == flat(entry@),
        sorted(named(row@)),
{
    entry.names_sorted();
    let mut row: Row = Vec::new();
    let mut i: usize = 0;
    assert(entry@.subrange(0, 0) =~= Seq::empty());
    assert(viewed(row@) =~= flat(entry@.subrange(0, 0)));
    while i < entry.len()
        invariant
            i <= entry@.len(),
            sorted(entry@),
            viewed(row@) == flat(entry@.subrange(0, i as int)),
            sorted(named(row@)),
            forall|k: int, m: int|
                0 <= k < row@.len() && i <= m < entry@.len() ==> crate::types::names::name_less(
                    (#[trigger] row@[k]).0@,
                    (#[trigger] entry@[m]).0,
                ),
        decreases entry@.len() - i,
    {
        let ghost before = row@;
        let ghost prefix = entry@.subrange(0, i as int + 1);
        proof {
            assert(prefix.drop_last() =~= entry@.subrange(0, i as int));
            assert(prefix.last() == entry@[i as int]);
        }
        match entry.value(i) {
            SchemaFieldValue::Value(value) => {
                row.push((entry.name(i).clone(), value.clone()));
                proof {
                    assert(viewed(row@) =~= viewed(before).push((entry@[i as int].0, value@)));
                    assert forall|a: int, b: int| 0 <= a < b < row@.len() implies crate::types::names::name_less(
                        (#[trigger] named(row@)[a]).0,
                        (#[trigger] named(row@)[b]).0,
                    ) by {
                        if b < before.len() {
                            assert(named(before)[a].0 == before[a].0@);
                            assert(named(before)[b].0 == before[b].0@);
                            assert(crate::types::names::name_less(
                                named(before)[a].0,
                                named(before)[b].0,
                            ));
                        } else {
                            assert(row@[a] == before[a]);
                            assert(entry@[i as int].0 == row@[b].0@);
                        }
                    }
                    assert forall|k: int, m: int|
                        0 <= k < row@.len() && i + 1 <= m < entry@.len() implies crate::types::names::name_less(
                        (#[trigger] row@[k]).0@,
                        (#[trigger] entry@[m]).0,
                    ) by {
                        if k < before.len() {
                            assert(row@[k] == before[k]);
                        } else {
                            assert(row@[k].0@ == entry@[i as int].0);
                        }
                    }
                }
            },
            SchemaFieldValue::Entries(_) => {},
        }
        i += 1;
    }
    assert(entry@.subrange(0, i as int) =~= entry@);
    row
}

/// The rows that are stored for a list of entries, added to the end of
/// `list`.
fn flatten_all(list: &mut Vec<Row>, entries: &SchemaEntries)
    requires
        rows_ok(old(list)@),
    ensures
        rows_ok(final(list)@),
        rows_view(final(list)@) == rows_view(old(list)@) + rows(entries@),
{
    let ghost before = list@;
    let mut i: usize = 0;
    while i < entries.0.len()
        invariant
            i <= entries.0.len(),
            rows_ok(list@),
            list@.len() == before.len() + i,
            forall|k: int| 0 <= k < before.len() ==> list@[k] == before[k],
            forall|k: int| 0 <= k < i ==> viewed(list@[before.len() + k]@) == flat(entries@[k]),
        decreases entries.0.len() - i,
    {
        let row = flatten(&entries.0[i]);
        list.push(row);
        i += 1;
    }
    assert(rows_view(list@) =~= rows_view(before) + rows(entries@));
}

/// Writes `entries` under `schema`, and what they hold for other schemas
/// under those schemas' names.
fn store(tables: &mut Vec<(String, Vec<Row>)>, schema: &str, entries: &SchemaEntries) -> (r:
    Result<(), Error>)
    requires
        tables_ok(old(tables)@),
    ensures
        tables_ok(final(tables)@),
        stored(to_map(tables_view(old(tables)@)), schema@, entries@) == (
            to_map(tables_view(final(tables)@)),
            match r {
                Ok(_) => None,
                Err(e) => Some(e@),
            },
        ),
    decreases entries,
{
    let ghost first = to_map(tables_view(tables@));
    proof {
        lemma_same_names(named(tables@), tables_view(tables@), schema@);
    }
    let (at, found) = search(tables, schema);
    if !found {
        return Err(Error::SchemaNotFound(schema.to_owned()));
    }
    let ghost before = tables@;
    let (name, mut list) = tables.remove(at);
    flatten_all(&mut list, entries);
    tables.insert(at, (name, list));
    proof {
        let old_view = tables_view(before);
        let new_view = tables_view(tables@);
        lemma_held_at_rank(old_view, at as int);
        assert(new_view =~= with_name(old_view, schema@, old_view[at as int].1 + rows(entries@)));
        lemma_with_name(old_view, schema@, old_view[at as int].1 + rows(entries@));
        assert(same_names(named(before), named(tables@)));
        lemma_same_names(named(before), named(tables@), schema@);
        assert forall|i: int| 0 <= i < tables@.len() implies rows_ok((#[trigger] tables@[i]).1@) by {
            if i != at {
                assert(tables@[i] == before[i]);
            }
        }
    }
    let ghost target = stored(first, schema@, entries@);
    let mut i: usize = 0;
    while i < entries.0.len()
        invariant
            i <= entries.0.len(),
            tables_ok(tables@),
            target == stored(to_map(tables_view(old(tables)@)), schema@, entries@),
            fanned(to_map(tables_view(tables@)), entries@, i as int, 0) == target,
        decreases entries.0.len() - i,
    {
        let entry = &entries.0[i];
        assert(decreases_to!(*entries => entries.0));
        assert(decreases_to!(entries.0 => entries.0[i as int]));
        let mut j: usize = 0;
        while j < entry.len()
            invariant
                i < entries.0.len(),
                *entry == entries.0[i as int],
                entry@ == entries@[i as int],
                decreases_to!(*entries => *entry),
                j <= entry@.len(),
                tables_ok(tables@),
                target == stored(to_map(tables_view(old(tables)@)), schema@, entries@),
                fanned(to_map(tables_view(tables@)), entries@, i as int, j as int) == target,
            decreases entry@.len() - j,
        {
            let held = entry.value(j);
            match held {
                SchemaFieldValue::Value(_) => {},
                SchemaFieldValue::Entries(nested) => {
                    assert(decreases_to!(*held => *nested));
                    match store(tables, entry.name(j).as_str(), nested) {
                        Ok(_) => {},
                        Err(e) => {
                            return Err(e);
                        },
                    }
                },
            }
            j += 1;
        }
        i += 1;
    }
    Ok(())
}

/// The entry that is read from `row` for the `fields` of a query on
/// `schema`: the values of the fields asked for, by name. Fields of
/// related schemas are left out. A field that the row does not hold is
/// reported as missing.
pub open spec fn projected(row: RowView, fields: Seq<FieldQueryView>, schema: Seq<char>) -> Result<
    EntryView,
    ErrorView,
>
    decreases fields.len(),
{
    if fields.len() == 0 {
        Ok(Seq::empty())
    } else {
        match projected(row, fields.drop_last(), schema) {
            Err(e) => Err(e),
            Ok(entry) => match fields.last() {
                FieldQueryView::Schema { .. } => Ok(entry),
                FieldQueryView::Field(name) => if has_name(row, name) {
                    Ok(with_name(entry, name, FieldValueView::Value(value_of(row, name))))
                } else {
                    Err(ErrorView::MissingField { schema, field: name })
                },
            },
        }
    }
}

/// The entries that are read from `rows`, one for each row in its order,
/// or what is reported of the first row that lacks a field.
pub open spec fn projected_all(rows: Seq<RowView>, fields: Seq<FieldQueryView>, schema: Seq<char>) -> Result<
    Seq<EntryView>,
    ErrorView,
>
    decreases rows.len(),
{
    if rows.len() == 0 {
        Ok(Seq::empty())
    } else {
        match projected_all(rows.drop_last(), fields, schema) {
            Err(e) => Err(e),
            Ok(entries) => match projected(rows.last(), fields, schema) {
                Err(e) => Err(e),
                Ok(entry) => Ok(entries.push(entry)),
            },
        }
    }
}

/// What a query reads from what is stored. A filter or an order is not
/// done yet, and the schema must have rows to read.
pub open spec fn read(tables: Tables, query: QueryView) -> Result<Seq<EntryView>, ErrorView> {
    if query.filtered {
        Err(ErrorView::NotImplemented("filter"@))
    } else if query.sorted {
        Err(ErrorView::NotImplemented("sorting"@))
    } else if !tables.contains_key(query.schema) {
        Err(ErrorView::SchemaNotFound(query.schema))
    } else {
        projected_all(tables[query.schema], query.fields, query.schema)
    }
}

/// Reads from `row` the fields that a query on `schema` asks for.
fn project(row: &Row, fields: &QueryFields, schema: &str) -> (r: Result<SchemaEntry, Error>)
    requires
        sorted(named(row@)),
    ensures
        match r {
            Ok(entry) => projected(viewed(row@), fields@, schema@) == Ok::<EntryView, ErrorView>(
                entry@,
            ),
            Err(e) => projected(viewed(row@), fields@, schema@) == Err::<EntryView, ErrorView>(e@),
        },
{
    let mut entry = SchemaEntry::new();
    let mut k: usize = 0;
    assert(fields@.subrange(0, 0) =~= Seq::empty());
    while k < fields.0.len()
        invariant
            k <= fields.0.len(),
            sorted(named(row@)),
            projected(viewed(row@), fields@.subrange(0, k as int), schema@) == Ok::<
                EntryView,
                ErrorView,
            >(entry@),
        decreases fields.0.len() - k,
    {
        let ghost prefix = fields@.subrange(0, k as int + 1);
        proof {
            assert(prefix.drop_last() =~= fields@.subrange(0, k as int));
            assert(prefix.last() == fields.0@[k as int]@);
        }
        match &fields.0[k] {
            FieldQuery::Schema { .. } => {},
            FieldQuery::Field(name) => {
                proof {
                    lemma_same_names(named(row@), viewed(row@), name@);
                }
                let (at, found) = search(row, name.as_str());
                if !found {
                    proof {
                        lemma_missing(viewed(row@), fields@, schema@, k as int + 1);
                    }
                    return Err(
                        Error::MissingField { schema: schema.to_owned(), field: name.clone() },
                    );
                }
                proof {
                    lemma_held_at_rank(viewed(row@), at as int);
                }
                entry = entry.insert(name.clone(), SchemaFieldValue::Value(row[at].1.clone()));
            },
        }
        k += 1;
    }
    assert(fields@.subrange(0, k as int) =~= fields@);
    Ok(entry)
}

/// What is reported of the first `n` fields is reported of all.
pub proof fn lemma_missing(row: RowView, fields: Seq<FieldQueryView>, schema: Seq<char>, n: int)
    requires
        0 <= n <= fields.len(),
        projected(row, fields.subrange(0, n), schema) is Err,
    ensures
        projected(row, fields, schema) == projected(row, fields.subrange(0, n), schema),
    decreases fields.len() - n,
{
    if n < fields.len() {
        let longer = fields.subrange(0, n + 1);
        assert(longer.drop_last() =~= fields.subrange(0, n));
        lemma_missing(row, fields, schema, n + 1);
    } else {
        assert(fields.subrange(0, n) =~= fields);
    }
}

/// What is reported of the first `n` rows is reported of all.
pub proof fn lemma_missing_row(
    rows: Seq<RowView>,
    fields: Seq<FieldQueryView>,
    schema: Seq<char>,
    n: int,
)
    requires
        0 <= n <= rows.len(),
        projected_all(rows.subrange(0, n), fields, schema) is Err,
    ensures
        projected_all(rows, fields, schema) == projected_all(rows.subrange(0, n), fields, schema),
    decreases rows.len() - n,
{
    if n < rows.len() {
        let longer = rows.subrange(0, n + 1);
        assert(longer.drop_last() =~= rows.subrange(0, n));
        lemma_missing_row(rows, fields, schema, n + 1);
    } else {
        assert(rows.subrange(0, n) =~= rows);
    }
}

/// Reads from each of `rows` the fields that a query on `schema` asks
/// for.
fn project_all(rows: &Vec<Row>, fields: &QueryFields, schema: &str) -> (r: Result<
    SchemaEntries,
    Error,
>)
    requires
        rows_ok(rows@),
    ensures
        match r {
            Ok(entries) => projected_all(rows_view(rows@), fields@, schema@) == Ok::<
                Seq<EntryView>,
                ErrorView,
            >(entries@),
            Err(e) => projected_all(rows_view(rows@), fields@, schema@) == Err::<
                Seq<EntryView>,
                ErrorView,
            >(e@),
        },
{
    let mut entries: Vec<SchemaEntry> = Vec::new();
    let mut k: usize = 0;
    let ghost all = rows_view(rows@);
    assert(all.subrange(0, 0) =~= Seq::empty());
    assert(SchemaEntries(entries)@ =~= Seq::empty());
    while k < rows.len()
        invariant
            k <= rows.len(),
            rows_ok(rows@),
            all == rows_view(rows@),
            projected_all(all.subrange(0, k as int), fields@, schema@) == Ok::<
                Seq<EntryView>,
                ErrorView,
            >(SchemaEntries(entries)@),
        decreases rows.len() - k,
    {
        let ghost prefix = all.subrange(0, k as int + 1);
        let ghost before = SchemaEntries(entries)@;
        proof {
            assert(prefix.drop_last() =~= all.subrange(0, k as int));
            assert(prefix.last() == viewed(rows@[k as int]@));
        }
        match project(&rows[k], fields, schema) {
            Ok(entry) => {
                entries.push(entry);
                assert(SchemaEntries(entries)@ =~= before.push(entry@));
            },
            Err(e) => {
                proof {
                    lemma_missing_row(all, fields@, schema@, k as int + 1);
                }
                return Err(e);
            },
        }
        k += 1;
    }
    assert(all.subrange(0, k as int) =~= all);
    Ok(SchemaEntries(entries))
}

/// Whether every schema has a number below `next` in its tag, and no two
/// schemas have the same.
pub open spec fn numbered(schemas: Seq<(String, Schema)>, next: u16) -> bool {
    &&& forall|i: int| 0 <= i < schemas.len() ==> (#[trigger] schemas[i]).1.kind.number() < next
    &&& forall|i: int, j: int|
        0 <= i < j < schemas.len() ==> (#[trigger] schemas[i]).1.kind.number()
            != (#[trigger] schemas[j]).1.kind.number()
}

/// Whether every schema of `schemas` has a number below `next` in its
/// tag, and no two schemas have the same.
pub open spec fn kinds_unique(schemas: Map<Seq<char>, SchemaView>, next: u16) -> bool {
    &&& forall|name: Seq<char>|
        schemas.contains_key(name) ==> (#[trigger] schemas[name]).kind.number() < next
    &&& forall|a: Seq<char>, b: Seq<char>|
        schemas.contains_key(a) && schemas.contains_key(b) && a != b ==> (#[trigger] schemas[a]).kind.number()
            != (#[trigger] schemas[b]).kind.number()
}

/// The schemas of a database and their entries, held in memory.
#[derive(Debug)]
pub struct SchemaRepository {
    kind_counter: u16,
    schemas: Vec<(String, Schema)>,
    data: Vec<(String, Vec<Row>)>,
}

impl SchemaRepository {
    #[verifier::type_invariant]
    closed spec fn names_rise(self) -> bool {
        &&& sorted(named(self.schemas@))
        &&& tables_ok(self.data@)
        &&& numbered(self.schemas@, self.kind_counter)
    }

    /// The number that the next schema gets for its tag.
    pub closed spec fn next_kind(self) -> u16 {
        self.kind_counter
    }

    /// The schemas by name.
    pub closed spec fn schemas(self) -> Map<Seq<char>, SchemaView> {
        to_map(viewed(self.schemas@))
    }

    /// The rows of each schema.
    pub closed spec fn tables(self) -> Tables {
        to_map(tables_view(self.data@))
    }

    /// What is reported when the numbers for tags have run out.
    pub open spec fn exhausted() -> ErrorView {
        ErrorView::Unknown("no kind is left for another schema"@)
    }

    /// States what holds of every repository: each schema has a tag of
    /// its own, with a number below the next one.
    pub fn kinds_are_unique(&self)
        ensures
            kinds_unique(self.schemas(), self.next_kind()),
    {
        proof {
            use_type_invariant(self);
            let s = viewed(self.schemas@);
            lemma_same_names(named(self.schemas@), s, Seq::empty());
            assert forall|name: Seq<char>| self.schemas().contains_key(name) implies (
            #[trigger] self.schemas()[name]).kind.number() < self.next_kind() by {
                let i = crate::types::names::index_of(s, name);
                lemma_held_at_rank(s, i);
                assert(s[i].1 == self.schemas@[i].1@);
            }
            assert forall|a: Seq<char>, b: Seq<char>|
                self.schemas().contains_key(a) && self.schemas().contains_key(b) && a
                    != b implies (#[trigger] self.schemas()[a]).kind.number()
                != (#[trigger] self.schemas()[b]).kind.number() by {
                let i = crate::types::names::index_of(s, a);
                let j = crate::types::names::index_of(s, b);
                lemma_held_at_rank(s, i);
                lemma_held_at_rank(s, j);
                assert(s[i].1 == self.schemas@[i].1@);
                assert(s[j].1 == self.schemas@[j].1@);
            }
        }
    }

    /// A repository without schemas.
    pub fn new() -> (r: SchemaRepository)
        ensures
            r.next_kind() == 0,
            r.schemas() == Map::<Seq<char>, SchemaView>::empty(),
            r.tables() == Map::<Seq<char>, Seq<RowView>>::empty(),
    {
        let r = SchemaRepository { kind_counter: 0, schemas: Vec::new(), data: Vec::new() };
        assert(r.schemas() =~= Map::empty());
        assert(r.tables() =~= Map::empty());
        r
    }

    /// Registers a schema under the next tag, in the place of a schema of
    /// the same name, and gives the schema no rows.
    pub fn create_schema(&mut self, schema: Valid<SetSchema>) -> (r: Result<Schema, Error>)
        ensures
            match r {
                Ok(made) => {
                    &&& old(self).next_kind() <= Kind::max_number()
                    &&& made@.name == schema.inner()@.name
                    &&& made@.fields == schema.inner()@.fields
                    &&& made.kind == Kind::packed(false, old(self).next_kind())
                    &&& !made.kind.component()
                    &&& made.kind.number() == old(self).next_kind()
                    &&& final(self).next_kind() == old(self).next_kind() + 1
                    &&& final(self).schemas() == old(self).schemas().insert(made@.name, made@)
                    &&& final(self).tables() == old(self).tables().insert(made@.name, Seq::empty())
                },
                Err(e) => {
                    &&& old(self).next_kind() > Kind::max_number()
                    &&& e@ == SchemaRepository::exhausted()
                    &&& final(self).next_kind() == old(self).next_kind()
                    &&& final(self).schemas() == old(self).schemas()
                    &&& final(self).tables() == old(self).tables()
                },
            },
    {
        proof {
            use_type_invariant(&*self);
        }
        if self.kind_counter > 0x7FFF {
            return Err(Error::Unknown("no kind is left for another schema".to_owned()));
        }
        let mut taken = SchemaRepository::new();
        core::mem::swap(self, &mut taken);
        let SchemaRepository { kind_counter, mut schemas, mut data } = taken;
        let asked = schema.into_inner();
        let made = Schema { name: asked.name, kind: Kind::new(false, kind_counter), fields: asked.fields };
        let ghost old_schemas = viewed(schemas@);
        let ghost old_data = tables_view(data@);
        let ghost old_rows = data@;
        proof {
            lemma_same_names(named(schemas@), old_schemas, made.name@);
            lemma_same_names(named(data@), old_data, made.name@);
            lemma_with_name(old_schemas, made.name@, made@);
            lemma_with_name(old_data, made.name@, Seq::empty());
        }
        let copy = made.clone();
        let ghost schemas_before = schemas@;
        let _ = put(&mut schemas, made.name.clone(), copy);
        proof {
            lemma_numbered(schemas_before, schemas@, copy, kind_counter);
        }
        let none: Vec<Row> = Vec::new();
        let ghost no_rows = none;
        let _ = put(&mut data, made.name.clone(), none);
        proof {
            lemma_viewed_with_name(old(self).schemas@, schemas@, made.name@, copy);
            assert(viewed(schemas@) == with_name(old_schemas, made.name@, made@));
            lemma_tables_with_name(old_rows, data@, made.name@, no_rows);
            assert(rows_view(no_rows@) =~= Seq::<RowView>::empty());
        }
        *self = SchemaRepository { kind_counter: kind_counter + 1, schemas, data };
        Ok(made)
    }

    /// The schema of the given name, if there is one.
    pub fn get_schema(&self, name: &str) -> (r: Result<Option<Schema>, Error>)
        ensures
            match r {
                Ok(Some(found)) => self.schemas().contains_key(name@) && self.schemas()[name@]
                    == found@,
                Ok(None) => !self.schemas().contains_key(name@),
                Err(_) => false,
            },
    {
        proof {
            use_type_invariant(self);
            lemma_same_names(named(self.schemas@), viewed(self.schemas@), name@);
        }
        let (at, found) = search(&self.schemas, name);
        if found {
            proof {
                lemma_to_map(viewed(self.schemas@), at as int);
            }
            Ok(Some(self.schemas[at].1.clone()))
        } else {
            Ok(None)
        }
    }

    /// Writes `entries` under `schema`, and what they hold for other
    /// schemas under those schemas' names.
    pub fn create_schema_entries(&mut self, schema: String, entries: SchemaEntries) -> (r: Result<
        (),
        Error,
    >)
        ensures
            final(self).next_kind() == old(self).next_kind(),
            final(self).schemas() == old(self).schemas(),
            stored(old(self).tables(), schema@, entries@) == (
                final(self).tables(),
                match r {
                    Ok(_) => None,
                    Err(e) => Some(e@),
                },
            ),
    {
        proof {
            use_type_invariant(&*self);
        }
        let mut taken = SchemaRepository::new();
        core::mem::swap(self, &mut taken);
        let SchemaRepository { kind_counter, schemas, mut data } = taken;
        let r = store(&mut data, schema.as_str(), &entries);
        *self = SchemaRepository { kind_counter, schemas, data };
        r
    }

    /// Reads what `query` asks for.
    pub fn read_schema_data(&self, query: Query) -> (r: Result<SchemaEntries, Error>)
        ensures
            match r {
                Ok(entries) => read(self.tables(), query@) == Ok::<Seq<EntryView>, ErrorView>(
                    entries@,
                ),
                Err(e) => read(self.tables(), query@) == Err::<Seq<EntryView>, ErrorView>(e@),
            },
    {
        proof {
            use_type_invariant(self);
        }
        if !query.filter.is_none() {
            return Err(Error::NotImplemented("filter".to_owned()));
        }
        if !query.sorting.is_none() {
            return Err(Error::NotImplemented("sorting".to_owned()));
        }
        proof {
            lemma_same_names(named(self.data@), tables_view(self.data@), query.schema@);
        }
        let (at, found) = search(&self.data, query.schema.as_str());
        if !found {
            return Err(Error::SchemaNotFound(query.schema.clone()));
        }
        proof {
            lemma_to_map(tables_view(self.data@), at as int);
        }
        project_all(&self.data[at].1, &query.fields, query.schema.as_str())
    }
}

/// The same for the rows of all schemas, which stay in order.
pub proof fn lemma_tables_with_name(
    before: Seq<(String, Vec<Row>)>,
    after: Seq<(String, Vec<Row>)>,
    name: Seq<char>,
    value: Vec<Row>,
)
    requires
        named(after) == with_name(named(before), name, value),
        tables_ok(before),
        rows_ok(value@),
    ensures
        tables_view(after) == with_name(tables_view(before), name, rows_view(value@)),
        tables_ok(after),
{
    lemma_same_names(named(before), tables_view(before), name);
    crate::types::names::lemma_rank_splits(named(before), name);
    lemma_with_name(named(before), name, value);
    let p = rank(named(before), name);
    assert forall|i: int| 0 <= i < after.len() implies tables_view(after)[i] == with_name(
        tables_view(before),
        name,
        rows_view(value@),
    )[i] && rows_ok((#[trigger] after[i]).1@) by {
        assert(tables_view(after)[i] == (named(after)[i].0, rows_view(named(after)[i].1@)));
        assert(after[i].1 == named(after)[i].1);
        if has_name(named(before), name) {
            if i != p {
                assert(named(after)[i] == named(before)[i]);
                assert(before[i].1 == named(before)[i].1);
            }
        } else {
            if i < p {
                assert(named(after)[i] == named(before)[i]);
                assert(before[i].1 == named(before)[i].1);
            } else if i > p {
                assert(named(after)[i] == named(before)[i - 1]);
                assert(before[i - 1].1 == named(before)[i - 1].1);
            }
        }
    }
    assert(tables_view(after) =~= with_name(tables_view(before), name, rows_view(value@)));
}

/// Putting a schema with the next number in the place of one of the same
/// name, or among the others, keeps the tags apart.
pub proof fn lemma_numbered(
    before: Seq<(String, Schema)>,
    after: Seq<(String, Schema)>,
    made: Schema,
    next: u16,
)
    requires
        numbered(before, next),
        next < u16::MAX,
        made.kind.number() == next,
        sorted(named(before)),
        named(after) == with_name(named(before), made.name@, made),
    ensures
        numbered(after, (next + 1) as u16),
{
    let s = named(before);
    let t = named(after);
    let name = made.name@;
    let p = rank(s, name);
    crate::types::names::lemma_rank_splits(s, name);
    if has_name(s, name) {
        lemma_held_at_rank(s, crate::types::names::index_of(s, name));
    }
    assert(after.len() == t.len());
    assert forall|i: int| 0 <= i < after.len() implies (#[trigger] after[i]).1 == (if i == p {
        made
    } else if has_name(s, name) || i < p {
        before[i].1
    } else {
        before[i - 1].1
    }) by {
        assert(t[i] == (after[i].0@, after[i].1));
        if i != p {
            let j = if has_name(s, name) || i < p {
                i
            } else {
                i - 1
            };
            assert(t[i] == s[j]);
            assert(s[j] == (before[j].0@, before[j].1));
        }
    }
}

} // verus!
