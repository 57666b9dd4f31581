//! Schemas, their fields, and the entries that are stored under them.

use crate::types::id::Kind;
use crate::types::names::{
    has_name, lemma_held_at_rank, lemma_rank_splits, lemma_same_names, named, put, rank, same_names, search, sorted,
    value_of, with_name,
};
use crate::types::value::{Json, Value};
use vstd::prelude::*;

verus! {

/// The type of the values of a field.
#[derive(Debug, Clone, Copy, PartialEq, Eq, Structural)]
pub enum FieldKind {
    Id,
    ComponentId,
    Boolean,
    Int,
    Float,
    Text,
    Json,
    DateTime,
}

/// The field of another schema that a field refers to.
#[derive(Debug, PartialEq, Eq)]
pub struct Related {
    pub schema: String,
    pub field: String,
}

/// The mathematical form of a [`Related`].
pub struct RelatedView {
    pub schema: Seq<char>,
    pub field: Seq<char>,
}

impl View for Related {
    type V = RelatedView;

    open spec fn view(&self) -> RelatedView {
        RelatedView { schema: self.schema@, field: self.field@ }
    }
}

impl Clone for Related {
    fn clone(&self) -> (r: Related)
        ensures
            r@ == self@,
    {
        Related { schema: self.schema.clone(), field: self.field.clone() }
    }
}

/// One field of a schema.
#[derive(Debug, PartialEq, Eq)]
pub struct Field {
    pub name: String,
    pub kind: FieldKind,
    pub related: Option<Related>,
    pub primary: bool,
    pub index: bool,
    pub nullable: bool,
}

/// The mathematical form of a [`Field`].
pub struct FieldView {
    pub name: Seq<char>,
    pub kind: FieldKind,
    pub related: Option<RelatedView>,
    pub primary: bool,
    pub index: bool,
    pub nullable: bool,
}

impl View for Field {
    type V = FieldView;

    open spec fn view(&self) -> FieldView {
        FieldView {
            name: self.name@,
            kind: self.kind,
            related: match self.related {
                Some(related) => Some(related@),
                None => None,
            },
            primary: self.primary,
            index: self.index,
            nullable: self.nullable,
        }
    }
}

impl Clone for Field {
    fn clone(&self) -> (r: Field)
        ensures
            r@ == self@,
    {
        Field {
            name: self.name.clone(),
            kind: self.kind,
            related: match &self.related {
                Some(related) => Some(related.clone()),
                None => None,
            },
            primary: self.primary,
            index: self.index,
            nullable: self.nullable,
        }
    }
}

/// The mathematical form of a list of fields.
pub open spec fn fields_view(fields: Seq<Field>) -> Seq<FieldView> {
    Seq::new(fields.len(), |i: int| fields[i]@)
}

/// Copies a list of fields.
pub fn clone_fields(fields: &Vec<Field>) -> (r: Vec<Field>)
    ensures
        fields_view(r@) == fields_view(fields@),
{
    let mut copy: Vec<Field> = Vec::new();
    let mut i: usize = 0;
    while i < fields.len()
        invariant
            i <= fields.len(),
            copy.len() == i,
            forall|j: int| 0 <= j < i ==> copy@[j]@ == fields@[j]@,
        decreases fields.len() - i,
    {
        copy.push(fields[i].clone());
        i += 1;
    }
    assert(fields_view(copy@) =~= fields_view(fields@));
    copy
}

/// A schema as a caller asks for it: a name and fields. The name must be
/// unique across the database.
#[derive(Debug, PartialEq, Eq)]
pub struct SetSchema {
    pub name: String,
    pub fields: Vec<Field>,
}

/// A registered schema: what was asked for, with the tag that the
/// database gave it.
#[derive(Debug, PartialEq, Eq)]
pub struct Schema {
    pub name: String,
    pub kind: Kind,
    pub fields: Vec<Field>,
}

/// The mathematical form of a [`SetSchema`].
pub struct SetSchemaView {
    pub name: Seq<char>,
    pub fields: Seq<FieldView>,
}

/// The mathematical form of a [`Schema`].
pub struct SchemaView {
    pub name: Seq<char>,
    pub kind: Kind,
    pub fields: Seq<FieldView>,
}

impl View for SetSchema {
    type V = SetSchemaView;

    open spec fn view(&self) -> SetSchemaView {
        SetSchemaView { name: self.name@, fields: fields_view(self.fields@) }
    }
}

impl View for Schema {
    type V = SchemaView;

    open spec fn view(&self) -> SchemaView {
        SchemaView { name: self.name@, kind: self.kind, fields: fields_view(self.fields@) }
    }
}

impl Clone for SetSchema {
    fn clone(&self) -> (r: SetSchema)
        ensures
            r@ == self@,
    {
        SetSchema { name: self.name.clone(), fields: clone_fields(&self.fields) }
    }
}

impl Clone for Schema {
    fn clone(&self) -> (r: Schema)
        ensures
            r@ == self@,
    {
        Schema { name: self.name.clone(), kind: self.kind, fields: clone_fields(&self.fields) }
    }
}

impl Schema {
    /// Starts a schema with the given name and no fields.
    pub fn builder(name: &str) -> (r: SchemaBuilder)
        ensures
            r@ == (SetSchemaView { name: name@, fields: Seq::empty() }),
    {
        SchemaBuilder::new(name)
    }
}

impl Field {
    /// Starts a field with the given name and kind: not related, not
    /// primary, not indexed, not nullable.
    pub fn builder(name: &str, kind: FieldKind) -> (r: FieldBuilder)
        ensures
            r@ == FieldBuilder::fresh(name@, kind),
    {
        FieldBuilder::new(name, kind)
    }
}

/// Builds a [`SetSchema`] field by field.
#[derive(Debug)]
pub struct SchemaBuilder {
    inner: SetSchema,
}

impl View for SchemaBuilder {
    type V = SetSchemaView;

    /// The schema built so far.
    closed spec fn view(&self) -> SetSchemaView {
        self.inner@
    }
}

impl SchemaBuilder {
    fn new(name: &str) -> (r: SchemaBuilder)
        ensures
            r@ == (SetSchemaView { name: name@, fields: Seq::empty() }),
    {
        let r = SchemaBuilder { inner: SetSchema { name: name.to_owned(), fields: Vec::new() } };
        assert(r@.fields =~= Seq::empty());
        r
    }

    /// Adds a field after those added before.
    pub fn field(self, field: FieldBuilder) -> (r: SchemaBuilder)
        ensures
            r@ == (SetSchemaView { name: self@.name, fields: self@.fields.push(field@) }),
    {
        let mut inner = self.inner;
        inner.fields.push(field.build());
        let r = SchemaBuilder { inner };
        assert(r@.fields =~= self@.fields.push(field@));
        r
    }

    /// The schema built.
    pub fn build(self) -> (r: SetSchema)
        ensures
            r@ == self@,
    {
        self.inner
    }
}

/// Builds a [`Field`].
#[derive(Debug)]
pub struct FieldBuilder {
    inner: Field,
}

impl View for FieldBuilder {
    type V = FieldView;

    /// The field built so far.
    closed spec fn view(&self) -> FieldView {
        self.inner@
    }
}

impl FieldBuilder {
    /// A field with nothing set but its name and kind.
    pub open spec fn fresh(name: Seq<char>, kind: FieldKind) -> FieldView {
        FieldView { name, kind, related: None, primary: false, index: false, nullable: false }
    }

    fn new(name: &str, kind: FieldKind) -> (r: FieldBuilder)
        ensures
            r@ == FieldBuilder::fresh(name@, kind),
    {
        FieldBuilder {
            inner: Field {
                name: name.to_owned(),
                kind,
                related: None,
                primary: false,
                index: false,
                nullable: false,
            },
        }
    }

    /// Ties the field to a field of another schema.
    pub fn related(self, schema: &str, field: &str) -> (r: FieldBuilder)
        ensures
            r@ == (FieldView {
                related: Some(RelatedView { schema: schema@, field: field@ }),
                ..self@
            }),
    {
        let mut inner = self.inner;
        inner.related = Some(Related { schema: schema.to_owned(), field: field.to_owned() });
        FieldBuilder { inner }
    }

    /// Makes the field the primary one, whose values the database makes.
    pub fn primary(self) -> (r: FieldBuilder)
        ensures
            r@ == (FieldView { primary: true, ..self@ }),
    {
        let mut inner = self.inner;
        inner.primary = true;
        FieldBuilder { inner }
    }

    /// Asks for an index on the field.
    pub fn index(self) -> (r: FieldBuilder)
        ensures
            r@ == (FieldView { index: true, ..self@ }),
    {
        let mut inner = self.inner;
        inner.index = true;
        FieldBuilder { inner }
    }

    /// Lets the field be left out of an entry, which then holds null.
    pub fn nullable(self) -> (r: FieldBuilder)
        ensures
            r@ == (FieldView { nullable: true, ..self@ }),
    {
        let mut inner = self.inner;
        inner.nullable = true;
        FieldBuilder { inner }
    }

    /// The field built.
    pub fn build(self) -> (r: Field)
        ensures
            r@ == self@,
    {
        self.inner
    }
}

/// A list of entries of one schema.
#[derive(Debug, PartialEq, Eq)]
pub struct SchemaEntries(pub Vec<SchemaEntry>);

/// One entry: values, or entries of another schema, by name. The names
/// are kept in rising order, and none occurs twice.
#[derive(Debug, PartialEq, Eq)]
pub struct SchemaEntry {
    fields: Vec<(String, SchemaFieldValue)>,
}

/// What an entry holds under a name: a value of its own schema, or
/// entries of the schema of that name.
#[derive(Debug, PartialEq, Eq)]
pub enum SchemaFieldValue {
    Value(Value),
    Entries(SchemaEntries),
}

/// The mathematical form of a [`SchemaFieldValue`].
pub enum FieldValueView {
    Value(Json),
    Entries(Seq<Seq<(Seq<char>, FieldValueView)>>),
}

/// The mathematical form of a [`SchemaEntry`]: names and what they hold,
/// in rising order of the names.
pub type EntryView = Seq<(Seq<char>, FieldValueView)>;

impl View for SchemaFieldValue {
    type V = FieldValueView;

    open spec fn view(&self) -> FieldValueView
        decreases self,
    {
        match self {
            SchemaFieldValue::Value(value) => FieldValueView::Value(value@),
            SchemaFieldValue::Entries(entries) => FieldValueView::Entries(entries@),
        }
    }
}

impl View for SchemaEntry {
    type V = EntryView;

    closed spec fn view(&self) -> EntryView
        decreases self,
    {
        Seq::new(
            self.fields@.len(),
            |i: int|
                if 0 <= i < self.fields@.len() {
                    (self.fields@[i].0@, self.fields@[i].1@)
                } else {
                    (Seq::empty(), FieldValueView::Value(Json::Null))
                },
        )
    }
}

impl View for SchemaEntries {
    type V = Seq<EntryView>;

    open spec fn view(&self) -> Seq<EntryView>
        decreases self,
    {
        Seq::new(
            self.0@.len(),
            |i: int|
                if 0 <= i < self.0@.len() {
                    self.0@[i]@
                } else {
                    Seq::empty()
                },
        )
    }
}

impl SchemaEntry {
    #[verifier::type_invariant]
    closed spec fn names_rise(self) -> bool {
        sorted(named(self.fields@))
    }

    proof fn lemma_fields(self)
        ensures
            same_names(named(self.fields@), self@),
            self@.len() == self.fields@.len(),
            forall|i: int|
                0 <= i < self.fields@.len() ==> (#[trigger] self@[i]) == (
                    self.fields@[i].0@,
                    self.fields@[i].1@,
                ),
    {
    }

    /// Starts an entry.
    pub fn builder() -> (r: SchemaEntryBuilder)
        ensures
            r@ == Seq::<(Seq<char>, FieldValueView)>::empty(),
    {
        SchemaEntryBuilder::new()
    }

    /// An entry that holds nothing.
    pub fn new() -> (r: SchemaEntry)
        ensures
            r@ == Seq::<(Seq<char>, FieldValueView)>::empty(),
    {
        let r = SchemaEntry { fields: Vec::new() };
        assert(r@ =~= Seq::empty());
        r
    }

    /// States what holds of every entry: its names rise.
    pub fn names_sorted(&self)
        ensures
            sorted(self@),
    {
        proof {
            use_type_invariant(self);
            self.lemma_fields();
            lemma_same_names(named(self.fields@), self@, Seq::empty());
        }
    }

    /// The number of names that the entry holds.
    pub fn len(&self) -> (r: usize)
        ensures
            r == self@.len(),
    {
        self.fields.len()
    }

    /// The `i`-th name in rising order.
    pub fn name(&self, i: usize) -> (r: &String)
        requires
            i < self@.len(),
        ensures
            r@ == self@[i as int].0,
    {
        &self.fields[i].0
    }

    /// What the `i`-th name holds.
    pub fn value(&self, i: usize) -> (r: &SchemaFieldValue)
        requires
            i < self@.len(),
        ensures
            r@ == self@[i as int].1,
            decreases_to!(*self => *r),
    {
        assert(decreases_to!(*self => self.fields));
        assert(decreases_to!(self.fields => self.fields[i as int]));
        assert(decreases_to!(self.fields[i as int] => self.fields[i as int].1));
        &self.fields[i].1
    }

    /// What the entry holds under `name`.
    pub fn get(&self, name: &str) -> (r: Option<&SchemaFieldValue>)
        ensures
            match r {
                Some(value) => has_name(self@, name@) && value@ == value_of(self@, name@),
                None => !has_name(self@, name@),
            },
    {
        proof {
            use_type_invariant(self);
            self.lemma_fields();
            lemma_same_names(named(self.fields@), self@, name@);
        }
        let (at, found) = search(&self.fields, name);
        if found {
            proof {
                lemma_held_at_rank(self@, at as int);
            }
            Some(&self.fields[at].1)
        } else {
            None
        }
    }

    /// The entry with `value` under `name`, in the place of what the name
    /// held before.
    pub fn insert(self, name: String, value: SchemaFieldValue) -> (r: SchemaEntry)
        ensures
            r@ == with_name(self@, name@, value@),
            sorted(r@),
    {
        proof {
            use_type_invariant(&self);
            self.lemma_fields();
            lemma_same_names(named(self.fields@), self@, name@);
        }
        let ghost before = named(self.fields@);
        let mut fields = self.fields;
        let _ = put(&mut fields, name, value);
        let ghost after = named(fields@);
        let ghost made = Seq::new(fields@.len(), |i: int| (fields@[i].0@, fields@[i].1@));
        proof {
            let p = rank(before, name@);
            lemma_rank_splits(before, name@);
            assert(made =~= with_name(self@, name@, value@)) by {
                assert forall|i: int| 0 <= i < after.len() implies made[i] == with_name(
                    self@,
                    name@,
                    value@,
                )[i] by {
                    assert(made[i] == (after[i].0, after[i].1@));
                    if has_name(before, name@) {
                        if i != p {
                            assert(after[i] == before[i]);
                        }
                    } else {
                        if i < p {
                            assert(after[i] == before[i]);
                        } else if i > p {
                            assert(after[i] == before[i - 1]);
                        }
                    }
                }
            }
            lemma_same_names(after, made, name@);
        }
        let r = SchemaEntry { fields };
        assert(r@ =~= made);
        r
    }
}

impl Clone for SchemaFieldValue {
    fn clone(&self) -> (r: SchemaFieldValue)
        ensures
            r@ == self@,
        decreases self,
    {
        match self {
            SchemaFieldValue::Value(value) => SchemaFieldValue::Value(value.clone()),
            SchemaFieldValue::Entries(entries) => SchemaFieldValue::Entries(entries.clone()),
        }
    }
}

impl Clone for SchemaEntry {
    fn clone(&self) -> (r: SchemaEntry)
        ensures
            r@ == self@,
        decreases self,
    {
        proof {
            use_type_invariant(self);
        }
        let mut copy: Vec<(String, SchemaFieldValue)> = Vec::new();
        let mut i: usize = 0;
        while i < self.fields.len()
            invariant
                i <= self.fields.len(),
                copy.len() == i,
                forall|j: int|
                    0 <= j < i ==> copy@[j].0@ == self.fields@[j].0@ && copy@[j].1@
                        == self.fields@[j].1@,
            decreases self.fields.len() - i,
        {
            let field = &self.fields[i];
            assert(decreases_to!(*self => self.fields));
            assert(decreases_to!(self.fields => self.fields[i as int]));
            assert(decreases_to!(self.fields[i as int] => self.fields[i as int].1));
            copy.push((field.0.clone(), field.1.clone()));
            i += 1;
        }
        proof {
            self.lemma_fields();
            assert(same_names(named(self.fields@), named(copy@)));
            lemma_same_names(named(self.fields@), named(copy@), Seq::empty());
        }
        let r = SchemaEntry { fields: copy };
        assert(r@ =~= self@);
        r
    }
}

impl Clone for SchemaEntries {
    fn clone(&self) -> (r: SchemaEntries)
        ensures
            r@ == self@,
        decreases self,
    {
        let mut copy: Vec<SchemaEntry> = Vec::new();
        let mut i: usize = 0;
        while i < self.0.len()
            invariant
                i <= self.0.len(),
                copy.len() == i,
                forall|j: int| 0 <= j < i ==> copy@[j]@ == self.0@[j]@,
            decreases self.0.len() - i,
        {
            let entry = &self.0[i];
            assert(decreases_to!(*self => self.0));
            assert(decreases_to!(self.0 => self.0[i as int]));
            copy.push(entry.clone());
            i += 1;
        }
        let r = SchemaEntries(copy);
        assert(r@ =~= self@);
        r
    }
}

impl SchemaEntries {
    /// Starts a list of entries.
    pub fn builder() -> (r: SchemaEntriesBuilder)
        ensures
            r@ == Seq::<EntryView>::empty(),
    {
        SchemaEntriesBuilder::new()
    }
}

/// Builds a list of entries.
#[derive(Debug)]
pub struct SchemaEntriesBuilder {
    inner: SchemaEntries,
}

impl View for SchemaEntriesBuilder {
    type V = Seq<EntryView>;

    /// The entries added so far.
    closed spec fn view(&self) -> Seq<EntryView> {
        self.inner@
    }
}

impl SchemaEntriesBuilder {
    fn new() -> (r: SchemaEntriesBuilder)
        ensures
            r@ == Seq::<EntryView>::empty(),
    {
        let r = SchemaEntriesBuilder { inner: SchemaEntries(Vec::new()) };
        assert(r@ =~= Seq::empty());
        r
    }

    /// Adds an entry after those added before.
    pub fn entry(self, entry: SchemaEntryBuilder) -> (r: SchemaEntriesBuilder)
        ensures
            r@ == self@.push(entry@),
    {
        let mut inner = self.inner;
        inner.0.push(entry.build());
        let r = SchemaEntriesBuilder { inner };
        assert(r@ =~= self@.push(entry@));
        r
    }

    /// Adds the given entries, in their order, after those added before.
    pub fn entries(self, entries: Vec<SchemaEntry>) -> (r: SchemaEntriesBuilder)
        ensures
            r@ == self@ + SchemaEntries(entries)@,
    {
        let mut inner = self.inner;
        let mut entries = entries;
        let ghost added = SchemaEntries(entries)@;
        inner.0.append(&mut entries);
        let r = SchemaEntriesBuilder { inner };
        assert(r@ =~= self@ + added);
        r
    }

    /// The list built.
    pub fn build(self) -> (r: SchemaEntries)
        ensures
            r@ == self@,
    {
        self.inner
    }
}

/// Builds an entry name by name.
#[derive(Debug)]
pub struct SchemaEntryBuilder {
    inner: SchemaEntry,
}

impl View for SchemaEntryBuilder {
    type V = EntryView;

    /// The entry built so far.
    closed spec fn view(&self) -> EntryView {
        self.inner@
    }
}

impl SchemaEntryBuilder {
    /// Starts an entry.
    pub fn new() -> (r: SchemaEntryBuilder)
        ensures
            r@ == Seq::<(Seq<char>, FieldValueView)>::empty(),
    {
        SchemaEntryBuilder { inner: SchemaEntry::new() }
    }

    /// Puts a value under `name`, in the place of what the name held
    /// before.
    pub fn field(self, name: &str, value: Value) -> (r: SchemaEntryBuilder)
        ensures
            r@ == with_name(self@, name@, FieldValueView::Value(value@)),
    {
        SchemaEntryBuilder {
            inner: self.inner.insert(name.to_owned(), SchemaFieldValue::Value(value)),
        }
    }

    /// Puts entries of the schema `name` under that name, in the place of
    /// what the name held before.
    pub fn nested(self, name: &str, entries: SchemaEntriesBuilder) -> (r: SchemaEntryBuilder)
        ensures
            r@ == with_name(self@, name@, FieldValueView::Entries(entries@)),
    {
        SchemaEntryBuilder {
            inner: self.inner.insert(name.to_owned(), SchemaFieldValue::Entries(entries.build())),
        }
    }

    /// The entry built.
    pub fn build(self) -> (r: SchemaEntry)
        ensures
            r@ == self@,
    {
        self.inner
    }
}

/// The JSON form of what an entry holds under a name: the value itself,
/// or the array of the entries.
pub open spec fn field_json(value: FieldValueView) -> Json
    decreases value, 0int,
{
    match value {
        FieldValueView::Value(json) => json,
        FieldValueView::Entries(entries) => entries_json(entries),
    }
}

/// The JSON form of an entry: an object with the entry's names, in
/// their order.
pub open spec fn entry_json(entry: EntryView) -> Json
    decreases entry, 1int,
{
    Json::Object(
        Seq::new(
            entry.len(),
            |i: int|
                if 0 <= i < entry.len() {
                    (entry[i].0, field_json(entry[i].1))
                } else {
                    (Seq::empty(), Json::Null)
                },
        ),
    )
}

/// The JSON form of a list of entries: the array of their objects.
pub open spec fn entries_json(entries: Seq<EntryView>) -> Json
    decreases entries, 1int,
{
    Json::Array(
        Seq::new(
            entries.len(),
            |i: int|
                if 0 <= i < entries.len() {
                    entry_json(entries[i])
                } else {
                    Json::Null
                },
        ),
    )
}

impl SchemaFieldValue {
    /// The JSON form of what is held.
    pub fn to_value(&self) -> (r: Value)
        ensures
            r@ == field_json(self@),
        decreases self,
    {
        match self {
            SchemaFieldValue::Value(value) => value.clone(),
            SchemaFieldValue::Entries(entries) => entries.to_value(),
        }
    }
}

impl SchemaEntry {
    /// The JSON form of the entry.
    pub fn to_value(&self) -> (r: Value)
        ensures
            r@ == entry_json(self@),
        decreases self,
    {
        let mut members: Vec<(String, Value)> = Vec::new();
        let mut i: usize = 0;
        while i < self.fields.len()
            invariant
                i <= self.fields.len(),
                members.len() == i,
                forall|j: int|
                    0 <= j < i ==> members@[j].0@ == self@[j].0 && members@[j].1@ == field_json(
                        self@[j].1,
                    ),
            decreases self.fields.len() - i,
        {
            let field = &self.fields[i];
            assert(decreases_to!(*self => self.fields));
            assert(decreases_to!(self.fields => self.fields[i as int]));
            assert(decreases_to!(self.fields[i as int] => self.fields[i as int].1));
            members.push((field.0.clone(), field.1.to_value()));
            i += 1;
        }
        let r = Value::Object(members);
        proof {
            self.lemma_fields();
        }
        proof {
            reveal_with_fuel(<Value as View>::view, 2);
        }
        assert(r@->Object_0 =~= entry_json(self@)->Object_0);
        r
    }
}

impl SchemaEntries {
    /// The JSON form of the entries.
    pub fn to_value(&self) -> (r: Value)
        ensures
            r@ == entries_json(self@),
        decreases self,
    {
        let mut items: Vec<Value> = Vec::new();
        let mut i: usize = 0;
        while i < self.0.len()
            invariant
                i <= self.0.len(),
                items.len() == i,
                forall|j: int| 0 <= j < i ==> items@[j]@ == entry_json(self@[j]),
            decreases self.0.len() - i,
        {
            let entry = &self.0[i];
            assert(decreases_to!(*self => self.0));
            assert(decreases_to!(self.0 => self.0[i as int]));
            items.push(entry.to_value());
            i += 1;
        }
        let r = Value::Array(items);
        proof {
            reveal_with_fuel(<Value as View>::view, 2);
        }
        assert(r@->Array_0 =~= entries_json(self@)->Array_0);
        r
    }
}

impl From<SchemaEntries> for Value {
    fn from(entries: SchemaEntries) -> (r: Value) {
        entries.to_value()
    }
}

impl From<SchemaEntry> for Value {
    fn from(entry: SchemaEntry) -> (r: Value) {
        entry.to_value()
    }
}

impl vstd::std_specs::convert::FromSpecImpl<SchemaEntry> for Value {
    open spec fn obeys_from_spec() -> bool {
        false
    }

    open spec fn from_spec(entry: SchemaEntry) -> Value {
        arbitrary()
    }
}

impl From<SchemaFieldValue> for Value {
    fn from(value: SchemaFieldValue) -> (r: Value) {
        value.to_value()
    }
}

impl vstd::std_specs::convert::FromSpecImpl<SchemaFieldValue> for Value {
    open spec fn obeys_from_spec() -> bool {
        false
    }

    open spec fn from_spec(value: SchemaFieldValue) -> Value {
        arbitrary()
    }
}

impl vstd::std_specs::convert::FromSpecImpl<SchemaEntries> for Value {
    open spec fn obeys_from_spec() -> bool {
        false
    }

    open spec fn from_spec(entries: SchemaEntries) -> Value {
        arbitrary()
    }
}

} // verus!
