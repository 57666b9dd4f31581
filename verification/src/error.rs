//! What the engine reports when it refuses a request.

use vstd::prelude::*;
use vstd::string::StringExecFns;

verus! {

/// Why a request was refused.
#[derive(Debug, PartialEq, Eq)]
pub enum Error {
    /// An entry leaves out a field that must be given.
    MissingField { schema: String, field: String },
    /// A name occurs twice where it may occur once.
    DuplicateField { schema: String, field: String },
    /// An entry gives a value for a primary field, which only the database
    /// sets.
    PrimaryFieldSet { schema: String, field: String },
    /// A value is not of the type that its field asks for.
    IncorrectDataType { expected: String, got: String },
    /// A name is not a field of the schema.
    UnknownFieldToSchema { schema: String, field: String },
    /// Something else was given where an object is expected.
    SchemaExpectsAnObject { schema: String, found: String },
    /// Something else was given where an array is expected.
    SchemaExpectsAnArray { schema: String, found: String },
    /// No schema has the name.
    SchemaNotFound(String),
    /// The request asks for something that the engine does not do yet.
    NotImplemented(String),
    /// The storage failed.
    Unknown(String),
}

/// The mathematical form of an [`Error`].
pub enum ErrorView {
    MissingField { schema: Seq<char>, field: Seq<char> },
    DuplicateField { schema: Seq<char>, field: Seq<char> },
    PrimaryFieldSet { schema: Seq<char>, field: Seq<char> },
    IncorrectDataType { expected: Seq<char>, got: Seq<char> },
    UnknownFieldToSchema { schema: Seq<char>, field: Seq<char> },
    SchemaExpectsAnObject { schema: Seq<char>, found: Seq<char> },
    SchemaExpectsAnArray { schema: Seq<char>, found: Seq<char> },
    SchemaNotFound(Seq<char>),
    NotImplemented(Seq<char>),
    Unknown(Seq<char>),
}

impl View for Error {
    type V = ErrorView;

    open spec fn view(&self) -> ErrorView {
        match self {
            Error::MissingField { schema, field } => ErrorView::MissingField {
                schema: schema@,
                field: field@,
            },
            Error::DuplicateField { schema, field } => ErrorView::DuplicateField {
                schema: schema@,
                field: field@,
            },
            Error::PrimaryFieldSet { schema, field } => ErrorView::PrimaryFieldSet {
                schema: schema@,
                field: field@,
            },
            Error::IncorrectDataType { expected, got } => ErrorView::IncorrectDataType {
                expected: expected@,
                got: got@,
            },
            Error::UnknownFieldToSchema { schema, field } => ErrorView::UnknownFieldToSchema {
                schema: schema@,
                field: field@,
            },
            Error::SchemaExpectsAnObject { schema, found } => ErrorView::SchemaExpectsAnObject {
                schema: schema@,
                found: found@,
            },
            Error::SchemaExpectsAnArray { schema, found } => ErrorView::SchemaExpectsAnArray {
                schema: schema@,
                found: found@,
            },
            Error::SchemaNotFound(name) => ErrorView::SchemaNotFound(name@),
            Error::NotImplemented(what) => ErrorView::NotImplemented(what@),
            Error::Unknown(what) => ErrorView::Unknown(what@),
        }
    }
}

/// What an error says in words.
pub open spec fn message(error: ErrorView) -> Seq<char> {
    match error {
        ErrorView::MissingField { schema, field } => "field "@ + field + " is missing from schema "@
            + schema,
        ErrorView::DuplicateField { schema, field } => "field "@ + field
            + " already exists in schema "@ + schema,
        ErrorView::PrimaryFieldSet { schema, field } => "field "@ + field
            + " is a primary field in schema "@ + schema + " and is not allowed to be set"@,
        ErrorView::IncorrectDataType { expected, got } => "incorrect data type: expected "@
            + expected + " got "@ + got,
        ErrorView::UnknownFieldToSchema { schema, field } => "schema "@ + schema
            + " does not have a field "@ + field,
        ErrorView::SchemaExpectsAnObject { schema, found } => "schema "@ + schema
            + " expects an object found "@ + found,
        ErrorView::SchemaExpectsAnArray { schema, found } => "schema "@ + schema
            + " expects an array found "@ + found,
        ErrorView::SchemaNotFound(name) => "schema not found: "@ + name,
        ErrorView::NotImplemented(what) => "not implemented: "@ + what,
        ErrorView::Unknown(what) => "unknown error: "@ + what,
    }
}

impl Error {
    /// What the error says in words.
    pub fn message(&self) -> (r: String)
        ensures
            r@ == message(self@),
    {
        match self {
            Error::MissingField { schema, field } => "field ".to_owned().concat(
                field.as_str(),
            ).concat(" is missing from schema ").concat(schema.as_str()),
            Error::DuplicateField { schema, field } => "field ".to_owned().concat(
                field.as_str(),
            ).concat(" already exists in schema ").concat(schema.as_str()),
            Error::PrimaryFieldSet { schema, field } => "field ".to_owned().concat(
                field.as_str(),
            ).concat(" is a primary field in schema ").concat(schema.as_str()).concat(
                " and is not allowed to be set",
            ),
            Error::IncorrectDataType { expected, got } => "incorrect data type: expected ".to_owned().concat(
                expected.as_str(),
            ).concat(" got ").concat(got.as_str()),
            Error::UnknownFieldToSchema { schema, field } => "schema ".to_owned().concat(
                schema.as_str(),
            ).concat(" does not have a field ").concat(field.as_str()),
            Error::SchemaExpectsAnObject { schema, found } => "schema ".to_owned().concat(
                schema.as_str(),
            ).concat(" expects an object found ").concat(found.as_str()),
            Error::SchemaExpectsAnArray { schema, found } => "schema ".to_owned().concat(
                schema.as_str(),
            ).concat(" expects an array found ").concat(found.as_str()),
            Error::SchemaNotFound(name) => "schema not found: ".to_owned().concat(name.as_str()),
            Error::NotImplemented(what) => "not implemented: ".to_owned().concat(what.as_str()),
            Error::Unknown(what) => "unknown error: ".to_owned().concat(what.as_str()),
        }
    }
}

} // verus!
