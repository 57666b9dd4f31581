//! Queries: which fields of which schema to read.

use crate::types::value::Value;
use vstd::prelude::*;

verus! {

/// A request to read entries of one schema.
#[derive(Debug)]
pub struct Query {
    pub schema: String,
    pub fields: QueryFields,
    pub filter: Filter,
    pub sorting: Sorting,
}

/// The fields that a query asks for, in the order asked.
#[derive(Debug)]
pub struct QueryFields(pub Vec<FieldQuery>);

/// One thing that a query asks for: a field of the schema, or fields of
/// a related schema.
#[derive(Debug)]
pub enum FieldQuery {
    Schema { name: String, fields: QueryFields },
    Field(String),
}

/// The mathematical form of a [`FieldQuery`].
pub enum FieldQueryView {
    Schema { name: Seq<char>, fields: Seq<FieldQueryView> },
    Field(Seq<char>),
}

impl FieldQueryView {
    /// The name that the item asks for: that of a field or of a schema.
    pub open spec fn name(self) -> Seq<char> {
        match self {
            FieldQueryView::Schema { name, .. } => name,
            FieldQueryView::Field(name) => name,
        }
    }
}

impl View for FieldQuery {
    type V = FieldQueryView;

    open spec fn view(&self) -> FieldQueryView
        decreases self,
    {
        match self {
            FieldQuery::Schema { name, fields } => FieldQueryView::Schema {
                name: name@,
                fields: fields@,
            },
            FieldQuery::Field(name) => FieldQueryView::Field(name@),
        }
    }
}

impl View for QueryFields {
    type V = Seq<FieldQueryView>;

    open spec fn view(&self) -> Seq<FieldQueryView>
        decreases self,
    {
        Seq::new(
            self.0@.len(),
            |i: int|
                if 0 <= i < self.0@.len() {
                    self.0@[i]@
                } else {
                    FieldQueryView::Field(Seq::empty())
                },
        )
    }
}

/// A field of a schema.
#[derive(Debug)]
pub struct FieldSelector {
    pub schema: String,
    pub field: String,
}

/// Which entries a query wants.
#[derive(Debug)]
pub enum Filter {
    Unfiltered,
    And(Vec<Filter>),
    Or(Vec<Filter>),
    Eq { field: FieldSelector, value: Value },
    In { field: FieldSelector, values: Vec<Value> },
}

/// In which order a query wants the entries.
#[derive(Debug)]
pub enum Sorting {
    Unsorted,
    Asc(FieldSelector),
    Desc(FieldSelector),
    And(Vec<Sorting>),
}

impl Default for Filter {
    fn default() -> (r: Filter)
        ensures
            r is Unfiltered,
    {
        Filter::Unfiltered
    }
}

/// The mathematical form of a [`Query`]: the schema, the fields asked
/// for, and whether a filter and an order are asked for.
pub struct QueryView {
    pub schema: Seq<char>,
    pub fields: Seq<FieldQueryView>,
    pub filtered: bool,
    pub sorted: bool,
}

impl View for Query {
    type V = QueryView;

    open spec fn view(&self) -> QueryView {
        QueryView {
            schema: self.schema@,
            fields: self.fields@,
            filtered: !(self.filter is Unfiltered),
            sorted: !(self.sorting is Unsorted),
        }
    }
}

impl Query {
    /// Starts a query on the schema of the given name, with no fields, no
    /// filter and no order.
    pub fn builder(schema: &str) -> (r: QueryBuilder)
        ensures
            r@ == QueryBuilder::fresh(schema@),
    {
        QueryBuilder::new(schema)
    }
}

impl QueryFields {
    /// Starts a list of fields.
    pub fn builder() -> (r: QueryFieldsBuilder)
        ensures
            r@ == Seq::<FieldQueryView>::empty(),
    {
        QueryFieldsBuilder::new()
    }
}

impl Filter {
    /// Whether the filter lets every entry through.
    pub fn is_none(&self) -> (r: bool)
        ensures
            r == (self is Unfiltered),
    {
        match self {
            Filter::Unfiltered => true,
            _ => false,
        }
    }
}

impl Sorting {
    /// Whether no order is asked for.
    pub fn is_none(&self) -> (r: bool)
        ensures
            r == (self is Unsorted),
    {
        match self {
            Sorting::Unsorted => true,
            _ => false,
        }
    }
}

/// Builds a [`Query`].
#[derive(Debug)]
pub struct QueryBuilder {
    inner: Query,
}

impl View for QueryBuilder {
    type V = QueryView;

    /// The query built so far.
    closed spec fn view(&self) -> QueryView {
        self.inner@
    }
}

impl QueryBuilder {
    /// A query on `schema` with no fields, no filter and no order.
    pub open spec fn fresh(schema: Seq<char>) -> QueryView {
        QueryView { schema, fields: Seq::empty(), filtered: false, sorted: false }
    }

    /// Starts a query on the schema of the given name, with no fields, no
    /// filter and no order.
    pub fn new(schema: &str) -> (r: QueryBuilder)
        ensures
            r@ == QueryBuilder::fresh(schema@),
    {
        let r = QueryBuilder {
            inner: Query {
                schema: schema.to_owned(),
                fields: QueryFields(Vec::new()),
                filter: Filter::Unfiltered,
                sorting: Sorting::Unsorted,
            },
        };
        assert(r@.fields =~= Seq::empty());
        r
    }

    /// Sets the fields that the query asks for.
    pub fn fields(self, fields: QueryFieldsBuilder) -> (r: QueryBuilder)
        ensures
            r@ == (QueryView { fields: fields@, ..self@ }),
    {
        let mut inner = self.inner;
        inner.fields = fields.build();
        QueryBuilder { inner }
    }

    /// The query built.
    pub fn build(self) -> (r: Query)
        ensures
            r@ == self@,
    {
        self.inner
    }
}

/// Builds a list of fields to ask for.
#[derive(Debug)]
pub struct QueryFieldsBuilder {
    inner: QueryFields,
}

impl View for QueryFieldsBuilder {
    type V = Seq<FieldQueryView>;

    /// The fields asked for so far.
    closed spec fn view(&self) -> Seq<FieldQueryView> {
        self.inner@
    }
}

impl QueryFieldsBuilder {
    /// Starts a list of fields.
    pub fn new() -> (r: QueryFieldsBuilder)
        ensures
            r@ == Seq::<FieldQueryView>::empty(),
    {
        let r = QueryFieldsBuilder { inner: QueryFields(Vec::new()) };
        assert(r@ =~= Seq::empty());
        r
    }

    /// Asks for fields of the related schema `name`.
    pub fn schema(self, name: &str, fields: QueryFieldsBuilder) -> (r: QueryFieldsBuilder)
        ensures
            r@ == self@.push(FieldQueryView::Schema { name: name@, fields: fields@ }),
    {
        let mut inner = self.inner;
        inner.0.push(FieldQuery::Schema { name: name.to_owned(), fields: fields.build() });
        let r = QueryFieldsBuilder { inner };
        assert(r@ =~= self@.push(FieldQueryView::Schema { name: name@, fields: fields@ }));
        r
    }

    /// Asks for the field `name`.
    pub fn field(self, name: &str) -> (r: QueryFieldsBuilder)
        ensures
            r@ == self@.push(FieldQueryView::Field(name@)),
    {
        let mut inner = self.inner;
        inner.0.push(FieldQuery::Field(name.to_owned()));
        let r = QueryFieldsBuilder { inner };
        assert(r@ =~= self@.push(FieldQueryView::Field(name@)));
        r
    }

    /// The list built.
    pub fn build(self) -> (r: QueryFields)
        ensures
            r@ == self@,
    {
        self.inner
    }
}

} // verus!
