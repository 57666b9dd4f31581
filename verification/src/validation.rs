//! The rules that entries and queries must meet before they reach a
//! storage.

use crate::adaptor::types::{json_type, validate_schema_value, value_error};
use crate::adaptor::Adaptor;
use crate::error::{Error, ErrorView};
use crate::types::id::{Id, Kind};
use crate::types::names::{
    has_name, index_of, lemma_held_at_rank, lemma_name_order, lemma_prefix_fresh,
    lemma_prefix_names, lemma_same_names, lemma_viewed_with_name, lemma_viewed_without_name,
    lemma_with_name, lemma_without_name, named, put, search, sorted, take, value_of, viewed,
    with_name, without_name,
};
use crate::adaptor::memory::schema::flat;
use crate::types::names::{compare, Order};
use crate::types::query::{FieldQuery, FieldQueryView, Query, QueryFields, QueryView};
use crate::types::schema::{
    fields_view, EntryView, Field, FieldValueView, FieldView, Schema, SchemaEntries, SchemaEntry,
    SchemaFieldValue, SchemaView,
};
use crate::types::value::{Json, Value};
use vstd::prelude::*;

verus! {

/// The schemas of a database, by name.
pub type Registry = Map<Seq<char>, SchemaView>;

/// Fields by name, in rising order of the names.
pub type FieldSet = Seq<(Seq<char>, FieldView)>;

/// The fields of a schema by name. Of two fields with one name the later
/// one counts.
pub open spec fn keyed(fields: Seq<FieldView>) -> FieldSet
    decreases fields.len(),
{
    if fields.len() == 0 {
        Seq::empty()
    } else {
        with_name(keyed(fields.drop_last()), fields.last().name, fields.last())
    }
}

/// Why an entry may not leave `field` out, if it may not. A primary field
/// is made by the database and null goes into a nullable field; a
/// related field cannot be filled in yet.
pub open spec fn field_gap(schema: Seq<char>, field: FieldView) -> Option<ErrorView> {
    if field.primary {
        None
    } else if field.related is Some {
        Some(ErrorView::NotImplemented("relation"@))
    } else if field.nullable {
        None
    } else {
        Some(ErrorView::MissingField { schema, field: field.name })
    }
}

/// The first reason why an entry may not leave out the fields `rest`, in
/// rising order of their names.
pub open spec fn pending_error(schema: Seq<char>, rest: FieldSet) -> Option<ErrorView>
    decreases rest.len(),
{
    if rest.len() == 0 {
        None
    } else {
        match field_gap(schema, rest[0].1) {
            Some(e) => Some(e),
            None => pending_error(schema, rest.drop_first()),
        }
    }
}

/// Why `entries` may not be stored under the schema named `schema`, if
/// they may not: the first thing that is wrong, entry by entry.
pub open spec fn checked(reg: Registry, schema: Seq<char>, entries: Seq<EntryView>) -> Option<
    ErrorView,
>
    decreases entries, entries.len() + 1, 0int,
{
    if !reg.contains_key(schema) {
        Some(ErrorView::SchemaNotFound(schema))
    } else {
        first_error(reg, reg[schema], entries, 0)
    }
}

/// The first thing that is wrong with the entries from the `i`-th on.
pub open spec fn first_error(reg: Registry, schema: SchemaView, entries: Seq<EntryView>, i: int) -> Option<
    ErrorView,
>
    decreases entries, entries.len() - i, 0int,
{
    if i < 0 || i >= entries.len() {
        None
    } else {
        match entry_error(reg, schema, entries[i]) {
            Some(e) => Some(e),
            None => first_error(reg, schema, entries, i + 1),
        }
    }
}

/// The first thing that is wrong with one entry: with what it holds, name
/// by name, or else with what it leaves out.
pub open spec fn entry_error(reg: Registry, schema: SchemaView, entry: EntryView) -> Option<
    ErrorView,
>
    decreases entry, entry.len() + 1, 0int,
{
    match scanned(reg, schema.name, keyed(schema.fields), entry, 0) {
        Err(e) => Some(e),
        Ok(rest) => pending_error(schema.name, rest),
    }
}

/// Goes through what an entry holds from its `j`-th name on, with the
/// fields `working` of the schema not given yet. Entries of another
/// schema are checked under that schema's name and use up no field. A
/// value must belong to a field not given yet, which is not primary and
/// takes the value; it uses the field up. The result is the fields left,
/// or the first thing that is wrong.
pub open spec fn scanned(
    reg: Registry,
    schema: Seq<char>,
    working: FieldSet,
    entry: EntryView,
    j: int,
) -> Result<FieldSet, ErrorView>
    decreases entry, entry.len() - j, 0int,
{
    if j < 0 || j >= entry.len() {
        Ok(working)
    } else {
        let name = entry[j].0;
        match entry[j].1 {
            FieldValueView::Entries(nested) => match checked(reg, name, nested) {
                Some(e) => Err(e),
                None => scanned(reg, schema, working, entry, j + 1),
            },
            FieldValueView::Value(value) => if !has_name(working, name) {
                Err(ErrorView::UnknownFieldToSchema { schema, field: name })
            } else if value_of(working, name).primary {
                Err(ErrorView::PrimaryFieldSet { schema, field: name })
            } else {
                match value_error(value, value_of(working, name)) {
                    Some(e) => Err(e),
                    None => scanned(reg, schema, without_name(working, name), entry, j + 1),
                }
            },
        }
    }
}

/// Whether `value` is what the database puts for a field that an entry
/// of a schema with the tag `kind` left out: the text of an identifier
/// with that tag for a primary field, null for another.
pub open spec fn injected(kind: Kind, field: FieldView, value: FieldValueView) -> bool {
    if field.primary {
        exists|id: Id| id.spec_kind() == kind && value == FieldValueView::Value(Json::String(id.text()))
    } else {
        value == FieldValueView::Value(Json::Null)
    }
}

/// Whether `kept` is what becomes of `given`, held under `name`: a value
/// stays as it is, and entries of the schema `name` are completed.
pub open spec fn carried(reg: Registry, name: Seq<char>, given: FieldValueView, kept: FieldValueView) -> bool
    decreases given, 0int, 0int,
{
    match given {
        FieldValueView::Value(_) => kept == given,
        FieldValueView::Entries(nested) => kept is Entries && completes(
            reg,
            name,
            nested,
            kept->Entries_0,
        ),
    }
}

/// Whether `made` are the entries `given`, each completed for the schema
/// named `schema`.
pub open spec fn completes(reg: Registry, schema: Seq<char>, given: Seq<EntryView>, made: Seq<EntryView>) -> bool
    decreases given, given.len() + 1, 0int,
{
    &&& reg.contains_key(schema)
    &&& made.len() == given.len()
    &&& forall|i: int|
        0 <= i < given.len() ==> entry_completes(reg, reg[schema], #[trigger] given[i], made[i])
}

/// Whether `made` is the entry `given` completed: it holds what `given`
/// holds and, for each field that `given` leaves out, what the database
/// puts for it.
pub open spec fn entry_completes(reg: Registry, schema: SchemaView, given: EntryView, made: EntryView) -> bool
    decreases given, given.len(), 0int,
{
    let rest = scanned(reg, schema.name, keyed(schema.fields), given, 0);
    &&& rest is Ok
    &&& sorted(made)
    &&& forall|name: Seq<char>| #[trigger]
        has_name(made, name) <==> has_name(given, name) || has_name(rest->Ok_0, name)
    &&& forall|k: int|
        0 <= k < rest->Ok_0.len() ==> injected(
            schema.kind,
            (#[trigger] rest->Ok_0[k]).1,
            value_of(made, rest->Ok_0[k].0),
        )
    &&& forall|j: int|
        0 <= j < given.len() && !has_name(rest->Ok_0, (#[trigger] given[j]).0) ==> carried(
            reg,
            given[j].0,
            given[j].1,
            value_of(made, given[j].0),
        )
}

/// The fields of a schema by name.
pub fn key_fields(fields: &Vec<Field>) -> (working: Vec<(String, Field)>)
    ensures
        viewed(working@) == keyed(fields_view(fields@)),
        sorted(named(working@)),
{
    let mut working: Vec<(String, Field)> = Vec::new();
    let mut i: usize = 0;
    let ghost all = fields_view(fields@);
    assert(all.subrange(0, 0) =~= Seq::empty());
    assert(viewed(working@) =~= keyed(all.subrange(0, 0)));
    while i < fields.len()
        invariant
            i <= fields.len(),
            all == fields_view(fields@),
            viewed(working@) == keyed(all.subrange(0, i as int)),
            sorted(named(working@)),
        decreases fields.len() - i,
    {
        let ghost before = working@;
        let ghost prefix = all.subrange(0, i as int + 1);
        let field = fields[i].clone();
        proof {
            assert(prefix.drop_last() =~= all.subrange(0, i as int));
            assert(prefix.last() == fields@[i as int]@);
        }
        let _ = put(&mut working, fields[i].name.clone(), field);
        proof {
            lemma_viewed_with_name(before, working@, fields@[i as int].name@, field);
        }
        i += 1;
    }
    assert(all.subrange(0, i as int) =~= all);
    working
}

/// Checks `entries` against the schema of the given name and completes
/// them: what is wrong is reported, the first thing first; else each
/// entry comes back with what the database puts for the fields that it
/// leaves out. A failure of the storage is handed on.
pub fn validate_entries<A: Adaptor>(adaptor: &A, schema: &str, entries: &SchemaEntries) -> (r:
    Result<SchemaEntries, Error>)
    ensures
        match r {
            Ok(made) => checked(adaptor.schemas(), schema@, entries@) is None && completes(
                adaptor.schemas(),
                schema@,
                entries@,
                made@,
            ),
            Err(e) => checked(adaptor.schemas(), schema@, entries@) == Some(e@) || (e@ is Unknown && !adaptor.reliable()),
        },
    decreases entries, 2int,
{
    match adaptor.get_schema(schema) {
        Err(e) => Err(e),
        Ok(None) => Err(Error::SchemaNotFound(schema.to_owned())),
        Ok(Some(found)) => validate_list(adaptor, &found, entries),
    }
}

/// Checks `entries` against `schema` and completes them.
pub fn validate_list<A: Adaptor>(adaptor: &A, schema: &Schema, entries: &SchemaEntries) -> (r:
    Result<SchemaEntries, Error>)
    ensures
        match r {
            Ok(made) => {
                &&& first_error(adaptor.schemas(), schema@, entries@, 0) is None
                &&& made@.len() == entries@.len()
                &&& forall|i: int|
                    0 <= i < entries@.len() ==> entry_completes(
                        adaptor.schemas(),
                        schema@,
                        #[trigger] entries@[i],
                        made@[i],
                    )
            },
            Err(e) => first_error(adaptor.schemas(), schema@, entries@, 0) == Some(e@) || (e@ is Unknown && !adaptor.reliable()),
        },
    decreases entries, 1int,
{
    let ghost reg = adaptor.schemas();
    let mut made: Vec<SchemaEntry> = Vec::new();
    let mut i: usize = 0;
    while i < entries.0.len()
        invariant
            i <= entries.0.len(),
            reg == adaptor.schemas(),
            made@.len() == i,
            first_error(reg, schema@, entries@, i as int) == first_error(reg, schema@, entries@, 0),
            forall|k: int|
                0 <= k < i ==> entry_completes(reg, schema@, #[trigger] entries@[k], made@[k]@),
        decreases entries.0.len() - i,
    {
        let entry = &entries.0[i];
        assert(decreases_to!(*entries => entries.0));
        assert(decreases_to!(entries.0 => entries.0[i as int]));
        match validate_entry(adaptor, schema, entry) {
            Ok(complete) => {
                made.push(complete);
            },
            Err(e) => {
                return Err(e);
            },
        }
        i += 1;
    }
    let r = SchemaEntries(made);
    assert forall|k: int| 0 <= k < entries@.len() implies entry_completes(
        reg,
        schema@,
        #[trigger] entries@[k],
        r@[k],
    ) by {
        assert(r@[k] == made@[k]@);
    }
    Ok(r)
}

/// Checks one entry against `schema` and completes it.
pub fn validate_entry<A: Adaptor>(adaptor: &A, schema: &Schema, entry: &SchemaEntry) -> (r: Result<
    SchemaEntry,
    Error,
>)
    ensures
        match r {
            Ok(made) => entry_error(adaptor.schemas(), schema@, entry@) is None && entry_completes(
                adaptor.schemas(),
                schema@,
                entry@,
                made@,
            ),
            Err(e) => entry_error(adaptor.schemas(), schema@, entry@) == Some(e@) || (e@ is Unknown && !adaptor.reliable()),
        },
    decreases entry, 0int,
{
    let ghost reg = adaptor.schemas();
    let ghost given = entry@;
    let ghost target = scanned(reg, schema@.name, keyed(schema@.fields), given, 0);
    entry.names_sorted();
    let mut working = key_fields(&schema.fields);
    let mut out = SchemaEntry::new();
    let mut j: usize = 0;
    assert(given.subrange(0, 0) =~= Seq::empty());
    while j < entry.len()
        invariant
            j <= given.len(),
            given == entry@,
            sorted(given),
            reg == adaptor.schemas(),
            target == scanned(reg, schema@.name, keyed(schema@.fields), given, 0),
            sorted(named(working@)),
            scanned(reg, schema@.name, viewed(working@), given, j as int) == target,
            sorted(out@),
            forall|name: Seq<char>| #[trigger]
                has_name(out@, name) <==> has_name(given.subrange(0, j as int), name),
            forall|k: int|
                0 <= k < j ==> carried(
                    reg,
                    (#[trigger] given[k]).0,
                    given[k].1,
                    value_of(out@, given[k].0),
                ),
        decreases given.len() - j,
    {
        let name = entry.name(j);
        let held = entry.value(j);
        let ghost before = out@;
        let ghost fields_before = working@;
        proof {
            lemma_prefix_fresh(given, j as int);
            assert forall|other: Seq<char>|
                has_name(given.subrange(0, j as int + 1), other) <==> has_name(
                    given.subrange(0, j as int),
                    other,
                ) || given[j as int].0 == other by {
                lemma_prefix_names(given, j as int, other);
            }
            lemma_same_names(named(working@), viewed(working@), name@);
        }
        let kept = match held {
            SchemaFieldValue::Entries(nested) => {
                assert(decreases_to!(*held => *nested));
                match validate_entries(adaptor, name.as_str(), nested) {
                    Ok(complete) => SchemaFieldValue::Entries(complete),
                    Err(e) => {
                        return Err(e);
                    },
                }
            },
            SchemaFieldValue::Value(value) => {
                let (at, found) = search(&working, name.as_str());
                if !found {
                    return Err(
                        Error::UnknownFieldToSchema {
                            schema: schema.name.clone(),
                            field: name.clone(),
                        },
                    );
                }
                proof {
                    lemma_held_at_rank(viewed(working@), at as int);
                }
                if working[at].1.primary {
                    return Err(
                        Error::PrimaryFieldSet { schema: schema.name.clone(), field: name.clone() },
                    );
                }
                match validate_schema_value(value, &working[at].1) {
                    Ok(_) => {},
                    Err(e) => {
                        return Err(e);
                    },
                }
                let _ = take(&mut working, name.as_str());
                proof {
                    lemma_viewed_without_name(fields_before, working@, name@);
                }
                SchemaFieldValue::Value(value.clone())
            },
        };
        proof {
            lemma_with_name(before, name@, kept@);
        }
        out = out.insert(name.clone(), kept);
        proof {
            assert forall|other: Seq<char>| #[trigger]
                has_name(out@, other) <==> has_name(
                    given.subrange(0, j as int + 1),
                    other,
                ) by {
                if other != name@ {
                    assert(has_name(out@, other) == has_name(before, other));
                    assert(has_name(before, other) <==> has_name(
                        given.subrange(0, j as int),
                        other,
                    ));
                }
            }
            assert forall|k: int| 0 <= k < j + 1 implies carried(
                reg,
                (#[trigger] given[k]).0,
                given[k].1,
                value_of(out@, given[k].0),
            ) by {
                if k < j {
                    assert(given.subrange(0, j as int)[k] == given[k]);
                    assert(has_name(given.subrange(0, j as int), given[k].0));
                    assert(given[k].0 != name@);
                    assert(has_name(before, given[k].0));
                }
            }
        }
        j += 1;
    }
    assert(given.subrange(0, j as int) =~= given);
    let ghost rest = viewed(working@);
    let ghost scanned_out = out@;
    let mut k: usize = 0;
    proof {
        lemma_same_names(named(working@), rest, Seq::empty());
        assert(rest.subrange(0, 0) =~= Seq::empty());
        assert(rest.subrange(0, rest.len() as int) =~= rest);
    }
    while k < working.len()
        invariant
            k <= working@.len(),
            given == entry@,
            reg == adaptor.schemas(),
            rest == viewed(working@),
            sorted(rest),
            target == Ok::<FieldSet, ErrorView>(rest),
            target == scanned(reg, schema@.name, keyed(schema@.fields), given, 0),
            pending_error(schema@.name, rest.subrange(k as int, rest.len() as int))
                == pending_error(schema@.name, rest),
            sorted(out@),
            forall|name: Seq<char>| #[trigger]
                has_name(out@, name) <==> has_name(given, name) || has_name(
                    rest.subrange(0, k as int),
                    name,
                ),
            forall|m: int|
                0 <= m < k ==> injected(
                    schema@.kind,
                    (#[trigger] rest[m]).1,
                    value_of(out@, rest[m].0),
                ),
            forall|i: int|
                0 <= i < given.len() && !has_name(
                    rest.subrange(0, k as int),
                    (#[trigger] given[i]).0,
                ) ==> carried(reg, given[i].0, given[i].1, value_of(out@, given[i].0)),
        decreases working@.len() - k,
    {
        let field = &working[k].1;
        let ghost before = out@;
        let ghost tail = rest.subrange(k as int, rest.len() as int);
        proof {
            assert(tail[0] == rest[k as int]);
            assert(tail.drop_first() =~= rest.subrange(k as int + 1, rest.len() as int));
            lemma_prefix_fresh(rest, k as int);
            assert forall|other: Seq<char>|
                has_name(rest.subrange(0, k as int + 1), other) <==> has_name(
                    rest.subrange(0, k as int),
                    other,
                ) || rest[k as int].0 == other by {
                lemma_prefix_names(rest, k as int, other);
            }
        }
        let put_in = if field.primary {
            let id = Id::new(schema.kind);
            SchemaFieldValue::Value(Value::String(id.to_b64()))
        } else if field.related.is_some() {
            return Err(Error::NotImplemented("relation".to_owned()));
        } else if field.nullable {
            SchemaFieldValue::Value(Value::Null)
        } else {
            return Err(
                Error::MissingField { schema: schema.name.clone(), field: field.name.clone() },
            );
        };
        proof {
            lemma_with_name(before, rest[k as int].0, put_in@);
        }
        out = out.insert(working[k].0.clone(), put_in);
        proof {
            assert forall|other: Seq<char>| #[trigger]
                has_name(out@, other) <==> has_name(given, other) || has_name(
                    rest.subrange(0, k as int + 1),
                    other,
                ) by {
                if other != rest[k as int].0 {
                    assert(has_name(out@, other) == has_name(before, other));
                    assert(has_name(before, other) <==> has_name(given, other) || has_name(
                        rest.subrange(0, k as int),
                        other,
                    ));
                }
            }
            assert forall|m: int| 0 <= m < k + 1 implies injected(
                schema@.kind,
                (#[trigger] rest[m]).1,
                value_of(out@, rest[m].0),
            ) by {
                if m < k {
                    assert(rest.subrange(0, k as int)[m] == rest[m]);
                    assert(has_name(rest.subrange(0, k as int), rest[m].0));
                    assert(has_name(before, rest[m].0) <==> has_name(given, rest[m].0) || has_name(
                        rest.subrange(0, k as int),
                        rest[m].0,
                    ));
                    lemma_name_order(rest[m].0, rest[k as int].0);
                }
            }
            assert forall|i: int|
                0 <= i < given.len() && !has_name(
                    rest.subrange(0, k as int + 1),
                    (#[trigger] given[i]).0,
                ) implies carried(reg, given[i].0, given[i].1, value_of(out@, given[i].0)) by {
                assert(has_name(given, given[i].0));
            }
        }
        k += 1;
    }
    proof {
        assert(rest.subrange(0, k as int) =~= rest);
        assert(rest.subrange(k as int, rest.len() as int) =~= Seq::empty());
    }
    Ok(out)
}

/// Whether one of `fields` has the given name.
pub open spec fn declares(fields: Seq<FieldView>, name: Seq<char>) -> bool {
    exists|i: int| 0 <= i < fields.len() && (#[trigger] fields[i]).name == name
}

/// Whether one of the first `k` items of `fields` asks for the given
/// name.
pub open spec fn asked_before(fields: Seq<FieldQueryView>, k: int, name: Seq<char>) -> bool {
    exists|i: int| 0 <= i < k && i < fields.len() && (#[trigger] fields[i]).name() == name
}

/// Why the fields of the schema named `schema` cannot be asked for as
/// `fields` does, if they cannot.
pub open spec fn query_error(reg: Registry, schema: Seq<char>, fields: Seq<FieldQueryView>) -> Option<
    ErrorView,
>
    decreases fields, fields.len() + 1, 0int,
{
    if !reg.contains_key(schema) {
        Some(ErrorView::SchemaNotFound(schema))
    } else {
        selection_error(reg, reg[schema], fields, 0)
    }
}

/// The first thing that is wrong with the items of `fields` from the
/// `k`-th on: a name that was asked for before, a field that the schema
/// does not have, or what is wrong with the fields asked of a related
/// schema.
pub open spec fn selection_error(
    reg: Registry,
    schema: SchemaView,
    fields: Seq<FieldQueryView>,
    k: int,
) -> Option<ErrorView>
    decreases fields, fields.len() - k, 0int,
{
    if k < 0 || k >= fields.len() {
        None
    } else if asked_before(fields, k, fields[k].name()) {
        Some(ErrorView::DuplicateField { schema: schema.name, field: fields[k].name() })
    } else {
        match fields[k] {
            FieldQueryView::Field(name) => if !declares(schema.fields, name) {
                Some(ErrorView::UnknownFieldToSchema { schema: schema.name, field: name })
            } else {
                selection_error(reg, schema, fields, k + 1)
            },
            FieldQueryView::Schema { name, fields: nested } => match query_error(reg, name, nested) {
                Some(e) => Some(e),
                None => selection_error(reg, schema, fields, k + 1),
            },
        }
    }
}

/// Why a query cannot be run, if it cannot: its schema is not there, it
/// asks for a filter or an order, which are not done yet, or something
/// is wrong with the fields that it asks for.
pub open spec fn read_error(reg: Registry, query: QueryView) -> Option<ErrorView> {
    if !reg.contains_key(query.schema) {
        Some(ErrorView::SchemaNotFound(query.schema))
    } else if query.filtered {
        Some(ErrorView::NotImplemented("filter"@))
    } else if query.sorted {
        Some(ErrorView::NotImplemented("sorting"@))
    } else {
        selection_error(reg, reg[query.schema], query.fields, 0)
    }
}

impl FieldQuery {
    /// The name that the item asks for: that of a field or of a schema.
    pub fn name(&self) -> (r: &String)
        ensures
            r@ == self@.name(),
    {
        match self {
            FieldQuery::Schema { name, .. } => name,
            FieldQuery::Field(name) => name,
        }
    }
}

/// Whether one of `fields` has the given name.
pub fn declares_field(fields: &Vec<Field>, name: &str) -> (r: bool)
    ensures
        r == declares(fields_view(fields@), name@),
{
    let mut i: usize = 0;
    while i < fields.len()
        invariant
            i <= fields.len(),
            forall|k: int| 0 <= k < i ==> (#[trigger] fields_view(fields@)[k]).name != name@,
        decreases fields.len() - i,
    {
        if compare(fields[i].name.as_str(), name) == Order::Equal {
            assert(fields_view(fields@)[i as int].name == name@);
            return true;
        }
        i += 1;
    }
    false
}

/// Whether one of the first `k` items of `fields` asks for the given
/// name.
pub fn was_asked(fields: &QueryFields, k: usize, name: &str) -> (r: bool)
    requires
        k <= fields@.len(),
    ensures
        r == asked_before(fields@, k as int, name@),
{
    let mut i: usize = 0;
    while i < k
        invariant
            i <= k <= fields.0.len(),
            forall|m: int| 0 <= m < i ==> (#[trigger] fields@[m]).name() != name@,
        decreases k - i,
    {
        if compare(fields.0[i].name().as_str(), name) == Order::Equal {
            assert(fields@[i as int].name() == name@);
            return true;
        }
        i += 1;
    }
    false
}

/// Checks the fields that a query asks of the schema of the given name.
pub fn validate_selection<A: Adaptor>(adaptor: &A, schema: &str, fields: &QueryFields) -> (r:
    Result<(), Error>)
    ensures
        match r {
            Ok(_) => query_error(adaptor.schemas(), schema@, fields@) is None,
            Err(e) => query_error(adaptor.schemas(), schema@, fields@) == Some(e@) || (e@ is Unknown && !adaptor.reliable()),
        },
    decreases fields, 1int,
{
    match adaptor.get_schema(schema) {
        Err(e) => Err(e),
        Ok(None) => Err(Error::SchemaNotFound(schema.to_owned())),
        Ok(Some(found)) => validate_fields(adaptor, &found, fields),
    }
}

/// Checks the fields that a query asks of `schema`.
pub fn validate_fields<A: Adaptor>(adaptor: &A, schema: &Schema, fields: &QueryFields) -> (r:
    Result<(), Error>)
    ensures
        match r {
            Ok(_) => selection_error(adaptor.schemas(), schema@, fields@, 0) is None,
            Err(e) => selection_error(adaptor.schemas(), schema@, fields@, 0) == Some(e@) || (e@ is Unknown && !adaptor.reliable()),
        },
    decreases fields, 0int,
{
    let ghost reg = adaptor.schemas();
    let mut k: usize = 0;
    while k < fields.0.len()
        invariant
            k <= fields.0.len(),
            reg == adaptor.schemas(),
            selection_error(reg, schema@, fields@, k as int) == selection_error(
                reg,
                schema@,
                fields@,
                0,
            ),
        decreases fields.0.len() - k,
    {
        let item = &fields.0[k];
        assert(decreases_to!(*fields => fields.0));
        assert(decreases_to!(fields.0 => fields.0[k as int]));
        assert(fields@[k as int] == item@);
        if was_asked(fields, k, item.name().as_str()) {
            return Err(
                Error::DuplicateField { schema: schema.name.clone(), field: item.name().clone() },
            );
        }
        match item {
            FieldQuery::Field(name) => {
                if !declares_field(&schema.fields, name.as_str()) {
                    return Err(
                        Error::UnknownFieldToSchema {
                            schema: schema.name.clone(),
                            field: name.clone(),
                        },
                    );
                }
            },
            FieldQuery::Schema { name, fields: nested } => {
                assert(decreases_to!(*item => *nested));
                match validate_selection(adaptor, name.as_str(), nested) {
                    Ok(_) => {},
                    Err(e) => {
                        return Err(e);
                    },
                }
            },
        }
        k += 1;
    }
    Ok(())
}

/// Checks that a query can be run.
pub fn validate_query<A: Adaptor>(adaptor: &A, query: &Query) -> (r: Result<(), Error>)
    ensures
        match r {
            Ok(_) => read_error(adaptor.schemas(), query@) is None,
            Err(e) => read_error(adaptor.schemas(), query@) == Some(e@) || (e@ is Unknown && !adaptor.reliable()),
        },
{
    match adaptor.get_schema(query.schema.as_str()) {
        Err(e) => Err(e),
        Ok(None) => Err(Error::SchemaNotFound(query.schema.clone())),
        Ok(Some(found)) => {
            if !query.filter.is_none() {
                Err(Error::NotImplemented("filter".to_owned()))
            } else if !query.sorting.is_none() {
                Err(Error::NotImplemented("sorting".to_owned()))
            } else {
                validate_fields(adaptor, &found, &query.fields)
            }
        },
    }
}

/// The entry that a JSON object stands for: each member is a value under
/// its name, and of two members with one name the later one counts.
pub open spec fn entry_of(members: Seq<(Seq<char>, Json)>) -> EntryView
    decreases members.len(),
{
    if members.len() == 0 {
        Seq::empty()
    } else {
        with_name(
            entry_of(members.drop_last()),
            members.last().0,
            FieldValueView::Value(members.last().1),
        )
    }
}

/// The entries that the items of a JSON array stand for, or what is
/// reported of the first item that is no object.
pub open spec fn items_of(schema: Seq<char>, items: Seq<Json>) -> Result<Seq<EntryView>, ErrorView>
    decreases items.len(),
{
    if items.len() == 0 {
        Ok(Seq::empty())
    } else {
        match items_of(schema, items.drop_last()) {
            Err(e) => Err(e),
            Ok(entries) => match items.last() {
                Json::Object(members) => Ok(entries.push(entry_of(members))),
                other => Err(
                    ErrorView::SchemaExpectsAnObject { schema, found: json_type(other) },
                ),
            },
        }
    }
}

/// The entries that a JSON value stands for: it must be an array of
/// objects.
pub open spec fn entries_of(schema: Seq<char>, value: Json) -> Result<Seq<EntryView>, ErrorView> {
    match value {
        Json::Array(items) => items_of(schema, items),
        other => Err(ErrorView::SchemaExpectsAnArray { schema, found: json_type(other) }),
    }
}

/// What is reported of the first `n` items is reported of all.
pub proof fn lemma_items_of(schema: Seq<char>, items: Seq<Json>, n: int)
    requires
        0 <= n <= items.len(),
        items_of(schema, items.subrange(0, n)) is Err,
    ensures
        items_of(schema, items) == items_of(schema, items.subrange(0, n)),
    decreases items.len() - n,
{
    if n < items.len() {
        assert(items.subrange(0, n + 1).drop_last() =~= items.subrange(0, n));
        lemma_items_of(schema, items, n + 1);
    } else {
        assert(items.subrange(0, n) =~= items);
    }
}

impl SchemaEntry {
    /// The entry that the members of a JSON object stand for.
    pub fn from_members(members: &Vec<(String, Value)>) -> (r: SchemaEntry)
        ensures
            r@ == entry_of(Value::Object(*members)@->Object_0),
    {
        proof {
            reveal_with_fuel(<Value as View>::view, 2);
        }
        let ghost all = Value::Object(*members)@->Object_0;
        let mut entry = SchemaEntry::new();
        let mut i: usize = 0;
        assert(all.subrange(0, 0) =~= Seq::empty());
        while i < members.len()
            invariant
                i <= members.len(),
                all.len() == members.len(),
                forall|k: int|
                    0 <= k < all.len() ==> (#[trigger] all[k]) == (members@[k].0@, members@[k].1@),
                entry@ == entry_of(all.subrange(0, i as int)),
            decreases members.len() - i,
        {
            proof {
                let prefix = all.subrange(0, i as int + 1);
                assert(prefix.drop_last() =~= all.subrange(0, i as int));
                assert(prefix.last() == all[i as int]);
            }
            entry = entry.insert(
                members[i].0.clone(),
                SchemaFieldValue::Value(members[i].1.clone()),
            );
            i += 1;
        }
        assert(all.subrange(0, i as int) =~= all);
        entry
    }
}

impl SchemaEntries {
    /// Reads entries of the schema of the given name from a JSON value,
    /// which must be an array of objects.
    pub fn from_value(schema: &str, value: &Value) -> (r: Result<SchemaEntries, Error>)
        ensures
            match r {
                Ok(entries) => entries_of(schema@, value@) == Ok::<Seq<EntryView>, ErrorView>(
                    entries@,
                ),
                Err(e) => entries_of(schema@, value@) == Err::<Seq<EntryView>, ErrorView>(e@),
            },
    {
        proof {
            reveal_with_fuel(<Value as View>::view, 2);
        }
        match value {
            Value::Array(items) => {
                let ghost all = value@->Array_0;
                let mut entries: Vec<SchemaEntry> = Vec::new();
                let mut i: usize = 0;
                assert(all.subrange(0, 0) =~= Seq::empty());
                assert(SchemaEntries(entries)@ =~= Seq::empty());
                while i < items.len()
                    invariant
                        i <= items.len(),
                        value@ is Array,
                        all == value@->Array_0,
                        all.len() == items.len(),
                        forall|k: int| 0 <= k < all.len() ==> (#[trigger] all[k]) == items@[k]@,
                        items_of(schema@, all.subrange(0, i as int)) == Ok::<
                            Seq<EntryView>,
                            ErrorView,
                        >(SchemaEntries(entries)@),
                    decreases items.len() - i,
                {
                    let ghost before = SchemaEntries(entries)@;
                    proof {
                        let prefix = all.subrange(0, i as int + 1);
                        assert(prefix.drop_last() =~= all.subrange(0, i as int));
                        assert(prefix.last() == all[i as int]);
                    }
                    match &items[i] {
                        Value::Object(members) => {
                            let entry = SchemaEntry::from_members(members);
                            entries.push(entry);
                            assert(SchemaEntries(entries)@ =~= before.push(entry@));
                        },
                        other => {
                            proof {
                                lemma_items_of(schema@, all, i as int + 1);
                            }
                            return Err(
                                Error::SchemaExpectsAnObject {
                                    schema: schema.to_owned(),
                                    found: other.json_type(),
                                },
                            );
                        },
                    }
                    i += 1;
                }
                assert(all.subrange(0, i as int) =~= all);
                Ok(SchemaEntries(entries))
            },
            other => Err(
                Error::SchemaExpectsAnArray { schema: schema.to_owned(), found: other.json_type() },
            ),
        }
    }
}

/// Whether `entry` holds a value, and no entries, under `name` at one of
/// its places from the `j`-th on.
pub open spec fn gives_value(entry: EntryView, j: int, name: Seq<char>) -> bool {
    exists|i: int| j <= i < entry.len() && (#[trigger] entry[i]).0 == name && entry[i].1 is Value
}

/// The fields of a schema by name are sorted, and every field of the
/// schema is among them under its name.
pub proof fn lemma_keyed(fields: Seq<FieldView>, name: Seq<char>)
    ensures
        sorted(keyed(fields)),
        declares(fields, name) <==> has_name(keyed(fields), name),
    decreases fields.len(),
{
    if fields.len() > 0 {
        let rest = fields.drop_last();
        let last = fields.last();
        lemma_keyed(rest, name);
        lemma_with_name(keyed(rest), last.name, last);
        if declares(fields, name) {
            let i = choose|i: int| 0 <= i < fields.len() && (#[trigger] fields[i]).name == name;
            if i < fields.len() - 1 {
                assert(rest[i].name == name);
            }
        }
        if declares(rest, name) {
            let i = choose|i: int| 0 <= i < rest.len() && (#[trigger] rest[i]).name == name;
            assert(fields[i].name == name);
        }
        if last.name == name {
            assert(fields[fields.len() - 1].name == name);
        }
    }
}

/// A field that is among the fields not given yet is left over when the
/// entry has been gone through, unless the entry gives a value for it.
pub proof fn lemma_scanned(
    reg: Registry,
    schema: Seq<char>,
    working: FieldSet,
    entry: EntryView,
    j: int,
    name: Seq<char>,
)
    requires
        0 <= j,
        sorted(working),
        scanned(reg, schema, working, entry, j) is Ok,
        has_name(working, name),
    ensures
        has_name(scanned(reg, schema, working, entry, j)->Ok_0, name) || gives_value(
            entry,
            j,
            name,
        ),
    decreases entry.len() - j,
{
    if j < entry.len() {
        match entry[j].1 {
            FieldValueView::Entries(_) => {
                lemma_scanned(reg, schema, working, entry, j + 1, name);
            },
            FieldValueView::Value(_) => {
                if entry[j].0 != name {
                    lemma_without_name(working, entry[j].0);
                    lemma_scanned(
                        reg,
                        schema,
                        without_name(working, entry[j].0),
                        entry,
                        j + 1,
                        name,
                    );
                }
            },
        }
    }
}

/// The row of an entry holds every name under which the entry holds a
/// value.
pub proof fn lemma_flat(entry: EntryView, i: int)
    requires
        0 <= i < entry.len(),
        entry[i].1 is Value,
    ensures
        has_name(flat(entry), entry[i].0),
    decreases entry.len(),
{
    let rest = flat(entry.drop_last());
    if i < entry.len() - 1 {
        lemma_flat(entry.drop_last(), i);
        let k = index_of(rest, entry[i].0);
        if entry.last().1 is Value {
            assert(flat(entry)[k] == rest[k]);
        }
    } else {
        assert(flat(entry)[rest.len() as int].0 == entry[i].0);
    }
}

/// A completed entry holds a value under the name of every field of its
/// schema, so that the row stored for it holds every field.
pub proof fn lemma_complete_rows(
    reg: Registry,
    schema: SchemaView,
    given: EntryView,
    made: EntryView,
    name: Seq<char>,
)
    requires
        entry_completes(reg, schema, given, made),
        declares(schema.fields, name),
    ensures
        has_name(made, name),
        value_of(made, name) is Value,
        has_name(flat(made), name),
{
    lemma_keyed(schema.fields, name);
    let rest = scanned(reg, schema.name, keyed(schema.fields), given, 0)->Ok_0;
    lemma_scanned(reg, schema.name, keyed(schema.fields), given, 0, name);
    if has_name(rest, name) {
        let k = index_of(rest, name);
        assert(injected(schema.kind, rest[k].1, value_of(made, rest[k].0)));
    } else {
        let i = choose|i: int| 0 <= i < given.len() && (#[trigger] given[i]).0 == name && given[i].1 is Value;
        assert(carried(reg, given[i].0, given[i].1, value_of(made, given[i].0)));
        assert(has_name(given, name));
    }
    assert(has_name(made, name));
    lemma_flat(made, index_of(made, name));
}

} // verus!
