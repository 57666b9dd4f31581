//! The rule that tells which values a field takes.

use crate::error::{Error, ErrorView};
use crate::types::id::{parse_spec, Id};
use crate::types::schema::{Field, FieldKind, FieldView};
use crate::types::value::{Json, Value};
use vstd::prelude::*;

verus! {

/// The name by which a refusal speaks of a JSON value's type.
pub open spec fn json_type(value: Json) -> Seq<char> {
    match value {
        Json::Null => "null"@,
        Json::Bool(_) => "boolean"@,
        Json::Number(_) => "number"@,
        Json::String(_) => "string"@,
        Json::Array(_) => "array"@,
        Json::Object(_) => "object"@,
    }
}

/// The name by which a refusal speaks of the type that a field asks for.
pub open spec fn kind_name(kind: FieldKind) -> Seq<char> {
    match kind {
        FieldKind::Id => "id"@,
        FieldKind::ComponentId => "id"@,
        FieldKind::Boolean => "boolean"@,
        FieldKind::Int => "int"@,
        FieldKind::Float => "float"@,
        FieldKind::Text => "text"@,
        FieldKind::Json => "json"@,
        FieldKind::DateTime => "datetime"@,
    }
}

/// Whether `value` is of the JSON type that `kind` asks for: any value
/// for `Json`, a string for text, date and identifier, a number for the
/// two kinds of number, a boolean for `Boolean`.
pub open spec fn shape_fits(kind: FieldKind, value: Json) -> bool {
    match kind {
        FieldKind::Id | FieldKind::ComponentId | FieldKind::Text | FieldKind::DateTime => value is String,
        FieldKind::Boolean => value is Bool,
        FieldKind::Int | FieldKind::Float => value is Number,
        FieldKind::Json => true,
    }
}

/// Why `field` does not take `value`, if it does not. Null goes into a
/// nullable field. Otherwise the value must be of the field's type; an
/// identifier must be the text form of one, and an `Int` a number that
/// fits a signed 64 bit integer.
pub open spec fn value_error(value: Json, field: FieldView) -> Option<ErrorView> {
    if value is Null && field.nullable {
        None
    } else if !shape_fits(field.kind, value) {
        Some(
            ErrorView::IncorrectDataType { expected: kind_name(field.kind), got: json_type(value) },
        )
    } else {
        match field.kind {
            FieldKind::Id | FieldKind::ComponentId => if parse_spec(value->String_0) is Ok {
                None
            } else {
                Some(ErrorView::IncorrectDataType { expected: "id"@, got: value->String_0 })
            },
            FieldKind::Int => if (value->Number_0).spec_as_i64() is Some {
                None
            } else {
                Some(ErrorView::IncorrectDataType { expected: "int"@, got: "number"@ })
            },
            _ => None,
        }
    }
}

impl Value {
    /// The name of the value's JSON type.
    pub fn json_type(&self) -> (r: String)
        ensures
            r@ == json_type(self@),
    {
        match self {
            Value::Null => "null".to_owned(),
            Value::Bool(_) => "boolean".to_owned(),
            Value::Number(_) => "number".to_owned(),
            Value::String(_) => "string".to_owned(),
            Value::Array(_) => "array".to_owned(),
            Value::Object(_) => "object".to_owned(),
        }
    }

    /// Whether the value is null.
    pub fn is_null(&self) -> (r: bool)
        ensures
            r == (self@ is Null),
    {
        match self {
            Value::Null => true,
            _ => false,
        }
    }
}

impl FieldKind {
    /// The name of the type that a field of this kind asks for.
    pub fn name(&self) -> (r: String)
        ensures
            r@ == kind_name(*self),
    {
        match self {
            FieldKind::Id => "id".to_owned(),
            FieldKind::ComponentId => "id".to_owned(),
            FieldKind::Boolean => "boolean".to_owned(),
            FieldKind::Int => "int".to_owned(),
            FieldKind::Float => "float".to_owned(),
            FieldKind::Text => "text".to_owned(),
            FieldKind::Json => "json".to_owned(),
            FieldKind::DateTime => "datetime".to_owned(),
        }
    }
}

/// Checks that `field` takes `value`.
pub fn validate_schema_value(value: &Value, field: &Field) -> (r: Result<(), Error>)
    ensures
        match r {
            Ok(_) => value_error(value@, field@) is None,
            Err(e) => value_error(value@, field@) == Some(e@),
        },
{
    if value.is_null() && field.nullable {
        return Ok(());
    }
    match (field.kind, value) {
        (FieldKind::Id, Value::String(id)) | (FieldKind::ComponentId, Value::String(id)) => {
            match Id::parse_b64(id.as_str().as_bytes()) {
                Ok(_) => Ok(()),
                Err(_) => Err(Error::IncorrectDataType { expected: "id".to_owned(), got: id.clone() }),
            }
        },
        (FieldKind::Boolean, Value::Bool(_)) => Ok(()),
        (FieldKind::Int, Value::Number(n)) => {
            match n.as_i64() {
                Some(_) => Ok(()),
                None => Err(
                    Error::IncorrectDataType { expected: "int".to_owned(), got: "number".to_owned() },
                ),
            }
        },
        (FieldKind::Float, Value::Number(_)) => Ok(()),
        (FieldKind::Text, Value::String(_)) => Ok(()),
        (FieldKind::DateTime, Value::String(_)) => Ok(()),
        (FieldKind::Json, _) => Ok(()),
        _ => Err(Error::IncorrectDataType { expected: field.kind.name(), got: value.json_type() }),
    }
}

} // verus!
