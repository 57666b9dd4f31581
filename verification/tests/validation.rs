use database::adaptor::types::validate_schema_value;
use database::error::Error;
use database::types::id::{Id, Kind};
use database::types::schema::{Field, FieldKind, SchemaEntries, SchemaFieldValue};
use database::types::value::{Number, Value};

fn text(s: &str) -> Value {
    Value::String(s.to_string())
}

fn mismatch(expected: &str, got: &str) -> Result<(), Error> {
    Err(Error::IncorrectDataType { expected: expected.to_string(), got: got.to_string() })
}

#[test]
fn values_must_fit_their_fields() {
    let f = |kind| Field::builder("f", kind).build();
    assert_eq!(validate_schema_value(&Value::Bool(true), &f(FieldKind::Boolean)), Ok(()));
    assert_eq!(validate_schema_value(&text("x"), &f(FieldKind::Text)), Ok(()));
    assert_eq!(validate_schema_value(&text("2024-01-01T00:00:00Z"), &f(FieldKind::DateTime)), Ok(()));
    assert_eq!(validate_schema_value(&Value::Array(vec![Value::Null]), &f(FieldKind::Json)), Ok(()));
    assert_eq!(validate_schema_value(&Value::Null, &f(FieldKind::Json)), Ok(()));
    assert_eq!(validate_schema_value(&text("x"), &f(FieldKind::Boolean)), mismatch("boolean", "string"));
    assert_eq!(validate_schema_value(&Value::Bool(true), &f(FieldKind::Text)), mismatch("text", "boolean"));
    assert_eq!(validate_schema_value(&Value::Null, &f(FieldKind::Text)), mismatch("text", "null"));
    assert_eq!(validate_schema_value(&Value::Array(vec![]), &f(FieldKind::DateTime)), mismatch("datetime", "array"));
    assert_eq!(validate_schema_value(&Value::Object(vec![]), &f(FieldKind::Float)), mismatch("float", "object"));
    assert_eq!(validate_schema_value(&Value::Bool(false), &f(FieldKind::Id)), mismatch("id", "boolean"));
}

#[test]
fn null_goes_into_nullable_fields_of_any_kind() {
    for kind in [
        FieldKind::Id,
        FieldKind::ComponentId,
        FieldKind::Boolean,
        FieldKind::Int,
        FieldKind::Float,
        FieldKind::Text,
        FieldKind::Json,
        FieldKind::DateTime,
    ] {
        let field = Field::builder("f", kind).nullable().build();
        assert_eq!(validate_schema_value(&Value::Null, &field), Ok(()));
    }
}

#[test]
fn numbers_fit_int_only_as_signed_64_bit() {
    let int = Field::builder("n", FieldKind::Int).build();
    let float = Field::builder("n", FieldKind::Float).build();
    let n = |n| Value::Number(n);
    assert_eq!(validate_schema_value(&n(Number::PosInt(0)), &int), Ok(()));
    assert_eq!(validate_schema_value(&n(Number::PosInt(i64::MAX as u64)), &int), Ok(()));
    assert_eq!(validate_schema_value(&n(Number::NegInt(i64::MIN)), &int), Ok(()));
    assert_eq!(validate_schema_value(&n(Number::PosInt(i64::MAX as u64 + 1)), &int), mismatch("int", "number"));
    assert_eq!(validate_schema_value(&n(Number::Float(1.5f64.to_bits())), &int), mismatch("int", "number"));
    assert_eq!(validate_schema_value(&n(Number::Float(1.5f64.to_bits())), &float), Ok(()));
    assert_eq!(validate_schema_value(&n(Number::PosInt(u64::MAX)), &float), Ok(()));
    assert_eq!(Number::PosInt(7).as_i64(), Some(7));
    assert_eq!(Number::NegInt(-7).as_i64(), Some(-7));
    assert_eq!(Number::PosInt(u64::MAX).as_i64(), None);
}

#[test]
fn identifiers_must_parse() {
    let field = Field::builder("id", FieldKind::Id).build();
    let component = Field::builder("id", FieldKind::ComponentId).build();
    let good = Id::new(Kind::new(false, 3)).to_b64();
    assert_eq!(validate_schema_value(&text(&good), &field), Ok(()));
    assert_eq!(validate_schema_value(&text(&good), &component), Ok(()));
    assert_eq!(validate_schema_value(&text("123"), &field), mismatch("id", "123"));
    assert_eq!(validate_schema_value(&text("aHR0cHM6Ly9naXR+"), &component), mismatch("id", "aHR0cHM6Ly9naXR+"));
}

#[test]
fn value_accessors() {
    let value = Value::Object(vec![
        ("a".to_string(), Value::Array(vec![text("x"), Value::Null])),
        ("b".to_string(), Value::Bool(true)),
        ("a".to_string(), Value::Null),
    ]);
    assert_eq!(value.get("a").unwrap().get_index(0).unwrap().as_str(), Some("x"));
    assert_eq!(value.get("a").unwrap().get_index(2), None);
    assert_eq!(value.get("b"), Some(&Value::Bool(true)));
    assert_eq!(value.get("c"), None);
    assert_eq!(value.get_index(0), None);
    assert_eq!(Value::Null.as_str(), None);
    assert!(Value::Null.is_null());
    assert!(!value.is_null());
    assert_eq!(value.clone(), value);
    assert_eq!(value.json_type(), "object");
    assert_eq!(FieldKind::ComponentId.name(), "id");
}

#[test]
fn entries_are_read_from_an_array_of_objects() {
    let value = Value::Array(vec![
        Value::Object(vec![
            ("name".to_string(), text("a")),
            ("age".to_string(), Value::Number(Number::PosInt(3))),
            ("name".to_string(), text("b")),
        ]),
        Value::Object(vec![]),
    ]);
    let entries = SchemaEntries::from_value("test", &value).unwrap();
    assert_eq!(entries.0.len(), 2);
    assert_eq!(entries.0[0].len(), 2);
    assert_eq!(entries.0[0].name(0), "age");
    assert_eq!(entries.0[0].get("name"), Some(&SchemaFieldValue::Value(text("b"))));
    assert_eq!(entries.0[1].len(), 0);
    assert_eq!(
        SchemaEntries::from_value("test", &Value::Object(vec![])),
        Err(Error::SchemaExpectsAnArray { schema: "test".to_string(), found: "object".to_string() })
    );
    assert_eq!(
        SchemaEntries::from_value("test", &Value::Array(vec![Value::Object(vec![]), text("x"), Value::Null])),
        Err(Error::SchemaExpectsAnObject { schema: "test".to_string(), found: "string".to_string() })
    );
    assert_eq!(
        Value::from(SchemaEntries::from_value("t", &Value::Array(vec![Value::Object(vec![])])).unwrap()),
        Value::Array(vec![Value::Object(vec![])])
    );
}

#[test]
fn errors_say_what_is_wrong() {
    let s = |s: &str| s.to_string();
    assert_eq!(
        Error::MissingField { schema: s("test"), field: s("name") }.message(),
        "field name is missing from schema test"
    );
    assert_eq!(
        Error::DuplicateField { schema: s("test"), field: s("id") }.message(),
        "field id already exists in schema test"
    );
    assert_eq!(
        Error::PrimaryFieldSet { schema: s("test"), field: s("id") }.message(),
        "field id is a primary field in schema test and is not allowed to be set"
    );
    assert_eq!(
        Error::IncorrectDataType { expected: s("text"), got: s("number") }.message(),
        "incorrect data type: expected text got number"
    );
    assert_eq!(
        Error::UnknownFieldToSchema { schema: s("test"), field: s("bogus") }.message(),
        "schema test does not have a field bogus"
    );
    assert_eq!(
        Error::SchemaExpectsAnObject { schema: s("test"), found: s("null") }.message(),
        "schema test expects an object found null"
    );
    assert_eq!(
        Error::SchemaExpectsAnArray { schema: s("test"), found: s("null") }.message(),
        "schema test expects an array found null"
    );
    assert_eq!(Error::SchemaNotFound(s("test")).message(), "schema not found: test");
    assert_eq!(Error::NotImplemented(s("filter")).message(), "not implemented: filter");
    assert_eq!(Error::Unknown(s("io")).message(), "unknown error: io");
}
