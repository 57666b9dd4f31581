use database::error::Error;
use database::types::id::Id;
use database::types::query::{Query, QueryFields};
use database::types::schema::{
    Field, FieldKind, Schema, SchemaEntries, SchemaEntry, SchemaFieldValue, SetSchema,
};
use database::types::value::{Number, Value};
use database::Database;

fn text(s: &str) -> Value {
    Value::String(s.to_string())
}

fn test_schema() -> SetSchema {
    Schema::builder("test")
        .field(Field::builder("id", FieldKind::Id).primary())
        .field(Field::builder("name", FieldKind::Text))
        .build()
}

fn one(entry: database::types::schema::SchemaEntryBuilder) -> SchemaEntries {
    SchemaEntries::builder().entry(entry).build()
}

fn id_of(value: &Value) -> Id {
    Id::parse_b64(value.as_str().unwrap().as_bytes()).unwrap()
}

#[test]
fn test_memory() {
    let mut db = Database::new_memory();

    let schema = Schema::builder("test")
        .field(Field::builder("id", FieldKind::Id).primary())
        .field(Field::builder("name", FieldKind::Text))
        .build();

    let schema = db.create_schema(schema).unwrap();

    let entries = db
        .create_schema_entries(
            "test".into(),
            SchemaEntries::builder()
                .entry(SchemaEntry::builder().field("name", text("1")))
                .build(),
        )
        .unwrap();

    let entries = Value::from(entries);

    let id = id_of(entries.get_index(0).unwrap().get("id").unwrap());
    assert_eq!(id.kind(), schema.kind);

    // now query for that entry
    let read_entries = db
        .read_schema_data(
            Query::builder("test")
                .fields(QueryFields::builder().field("id").field("name"))
                .build(),
        )
        .unwrap();

    let read_entries = Value::from(read_entries);
    assert_eq!(entries, read_entries);

    // now query for that entry
    let less_entries = db
        .read_schema_data(
            Query::builder("test")
                .fields(QueryFields::builder().field("id"))
                .build(),
        )
        .unwrap();

    let entry = &less_entries.0[0];
    assert_eq!(entry.len(), 1);
    let id = id_of(&entry.get("id").unwrap().to_value());
    assert_eq!(id.kind(), schema.kind);
}

#[test]
fn end_to_end_name_comes_back() {
    let mut db = Database::new_memory();
    let schema = db.create_schema(test_schema()).unwrap();
    db.create_schema_entries("test".into(), one(SchemaEntry::builder().field("name", text("1"))))
        .unwrap();
    let read = db
        .read_schema_data(
            Query::builder("test")
                .fields(QueryFields::builder().field("id").field("name"))
                .build(),
        )
        .unwrap();
    assert_eq!(read.0.len(), 1);
    assert_eq!(read.0[0].len(), 2);
    assert_eq!(read.0[0].get("name"), Some(&SchemaFieldValue::Value(text("1"))));
    assert_eq!(id_of(&read.0[0].get("id").unwrap().to_value()).kind(), schema.kind);
}

#[test]
fn same_schema_name_twice_is_refused() {
    let mut db = Database::new_memory();
    let first = db.create_schema(test_schema()).unwrap();
    let second = db.create_schema(
        Schema::builder("test")
            .field(Field::builder("other", FieldKind::Int))
            .build(),
    );
    assert_eq!(second, Err(Error::NotImplemented("schema update".to_string())));
    let kept = db.get_schema("test").unwrap().unwrap();
    assert_eq!(kept, first);
    // the next schema gets the next tag: none was used up
    let next = db.create_schema(Schema::builder("next").build()).unwrap();
    assert_eq!(next.kind.kind(), first.kind.kind() + 1);
}

#[test]
fn primary_is_injected_with_the_schemas_kind() {
    let mut db = Database::new_memory();
    db.create_schema(Schema::builder("first").build()).unwrap();
    let schema = db.create_schema(test_schema()).unwrap();
    assert_eq!(schema.kind.kind(), 1);
    let made = db
        .create_schema_entries("test".into(), one(SchemaEntry::builder().field("name", text("x"))))
        .unwrap();
    assert_eq!(made.0.len(), 1);
    assert_eq!(made.0[0].len(), 2);
    assert_eq!(made.0[0].get("name"), Some(&SchemaFieldValue::Value(text("x"))));
    let id = id_of(&made.0[0].get("id").unwrap().to_value());
    assert_eq!(id.kind(), schema.kind);
    assert!(!id.kind().is_component());
}

#[test]
fn primary_set_by_the_caller_is_refused() {
    let mut db = Database::new_memory();
    db.create_schema(test_schema()).unwrap();
    let given = Id::new(database::types::id::Kind::new(false, 0)).to_b64();
    let r = db.create_schema_entries(
        "test".into(),
        one(SchemaEntry::builder().field("name", text("x")).field("id", text(&given))),
    );
    assert_eq!(
        r,
        Err(Error::PrimaryFieldSet { schema: "test".to_string(), field: "id".to_string() })
    );
    // nothing was stored
    let read = db
        .read_schema_data(
            Query::builder("test")
                .fields(QueryFields::builder().field("name"))
                .build(),
        )
        .unwrap();
    assert_eq!(read.0.len(), 0);
}

#[test]
fn missing_required_field_is_named() {
    let mut db = Database::new_memory();
    db.create_schema(test_schema()).unwrap();
    let r = db.create_schema_entries("test".into(), one(SchemaEntry::builder()));
    assert_eq!(
        r,
        Err(Error::MissingField { schema: "test".to_string(), field: "name".to_string() })
    );
}

#[test]
fn unknown_field_is_rejected() {
    let mut db = Database::new_memory();
    db.create_schema(test_schema()).unwrap();
    let r = db.create_schema_entries(
        "test".into(),
        one(SchemaEntry::builder()
            .field("name", text("x"))
            .field("bogus", Value::Number(Number::PosInt(1)))),
    );
    assert_eq!(
        r,
        Err(Error::UnknownFieldToSchema { schema: "test".to_string(), field: "bogus".to_string() })
    );
}

#[test]
fn type_mismatch_is_rejected() {
    let mut db = Database::new_memory();
    db.create_schema(test_schema()).unwrap();
    let r = db.create_schema_entries(
        "test".into(),
        one(SchemaEntry::builder().field("name", Value::Number(Number::PosInt(123)))),
    );
    assert_eq!(
        r,
        Err(Error::IncorrectDataType { expected: "text".to_string(), got: "number".to_string() })
    );
}

#[test]
fn query_fields_are_validated() {
    let mut db = Database::new_memory();
    db.create_schema(test_schema()).unwrap();
    let r = db.read_schema_data(
        Query::builder("test")
            .fields(QueryFields::builder().field("id").field("id"))
            .build(),
    );
    assert_eq!(
        r,
        Err(Error::DuplicateField { schema: "test".to_string(), field: "id".to_string() })
    );
    let r = db.read_schema_data(
        Query::builder("test")
            .fields(QueryFields::builder().field("missing"))
            .build(),
    );
    assert_eq!(
        r,
        Err(Error::UnknownFieldToSchema {
            schema: "test".to_string(),
            field: "missing".to_string()
        })
    );
    let r = db.read_schema_data(Query::builder("nope").build());
    assert_eq!(r, Err(Error::SchemaNotFound("nope".to_string())));
}

#[test]
fn query_with_filter_or_order_is_not_done_yet() {
    let mut db = Database::new_memory();
    db.create_schema(test_schema()).unwrap();
    let mut query = Query::builder("test").build();
    query.filter = database::types::query::Filter::And(Vec::new());
    assert_eq!(
        db.read_schema_data(query),
        Err(Error::NotImplemented("filter".to_string()))
    );
    let mut query = Query::builder("test").build();
    query.sorting = database::types::query::Sorting::And(Vec::new());
    assert_eq!(
        db.read_schema_data(query),
        Err(Error::NotImplemented("sorting".to_string()))
    );
}

#[test]
fn nested_selection_is_checked_against_its_own_schema() {
    let mut db = Database::new_memory();
    db.create_schema(test_schema()).unwrap();
    db.create_schema(
        Schema::builder("child")
            .field(Field::builder("age", FieldKind::Int))
            .build(),
    )
    .unwrap();
    let ok = db.read_schema_data(
        Query::builder("test")
            .fields(
                QueryFields::builder()
                    .field("name")
                    .schema("child", QueryFields::builder().field("age")),
            )
            .build(),
    );
    assert_eq!(ok.unwrap().0.len(), 0);
    let r = db.read_schema_data(
        Query::builder("test")
            .fields(
                QueryFields::builder()
                    .schema("child", QueryFields::builder().field("name")),
            )
            .build(),
    );
    assert_eq!(
        r,
        Err(Error::UnknownFieldToSchema { schema: "child".to_string(), field: "name".to_string() })
    );
    let r = db.read_schema_data(
        Query::builder("test")
            .fields(QueryFields::builder().schema("gone", QueryFields::builder()))
            .build(),
    );
    assert_eq!(r, Err(Error::SchemaNotFound("gone".to_string())));
}

#[test]
fn nested_entries_are_validated_first_and_completed() {
    let mut db = Database::new_memory();
    db.create_schema(test_schema()).unwrap();
    let child = db
        .create_schema(
            Schema::builder("child")
                .field(Field::builder("id", FieldKind::Id).primary())
                .field(Field::builder("note", FieldKind::Text).nullable())
                .build(),
        )
        .unwrap();
    // "child" comes before "name" in the order of names: its error comes first
    let r = db.create_schema_entries(
        "test".into(),
        one(SchemaEntry::builder()
            .field("name", Value::Bool(true))
            .nested("child", SchemaEntries::builder().entry(SchemaEntry::builder().field("x", text("1"))))),
    );
    assert_eq!(
        r,
        Err(Error::UnknownFieldToSchema { schema: "child".to_string(), field: "x".to_string() })
    );
    let made = db
        .create_schema_entries(
            "test".into(),
            one(SchemaEntry::builder()
                .field("name", text("n"))
                .nested("child", SchemaEntries::builder().entry(SchemaEntry::builder()))),
        )
        .unwrap();
    let nested = match made.0[0].get("child").unwrap() {
        SchemaFieldValue::Entries(entries) => entries,
        SchemaFieldValue::Value(_) => panic!("entries expected"),
    };
    assert_eq!(nested.0.len(), 1);
    assert_eq!(nested.0[0].get("note"), Some(&SchemaFieldValue::Value(Value::Null)));
    assert_eq!(id_of(&nested.0[0].get("id").unwrap().to_value()).kind(), child.kind);
    // the nested entry is stored under its own schema
    let read = db
        .read_schema_data(
            Query::builder("child")
                .fields(QueryFields::builder().field("note").field("id"))
                .build(),
        )
        .unwrap();
    assert_eq!(read.0.len(), 1);
    let r = db.create_schema_entries(
        "test".into(),
        one(SchemaEntry::builder()
            .field("name", text("n"))
            .nested("gone", SchemaEntries::builder())),
    );
    assert_eq!(r, Err(Error::SchemaNotFound("gone".to_string())));
}

#[test]
fn related_field_left_out_is_not_done_yet() {
    let mut db = Database::new_memory();
    db.create_schema(
        Schema::builder("post")
            .field(Field::builder("author", FieldKind::Id).related("user", "id"))
            .build(),
    )
    .unwrap();
    let r = db.create_schema_entries("post".into(), one(SchemaEntry::builder()));
    assert_eq!(r, Err(Error::NotImplemented("relation".to_string())));
    let r = db.create_schema_entries("nope".into(), one(SchemaEntry::builder()));
    assert_eq!(r, Err(Error::SchemaNotFound("nope".to_string())));
}

#[test]
fn entries_keep_their_names_in_order() {
    let entry = SchemaEntry::builder()
        .field("b", text("2"))
        .field("a", text("1"))
        .field("c", text("3"))
        .field("a", text("4"))
        .build();
    assert_eq!(entry.len(), 3);
    assert_eq!(entry.name(0), "a");
    assert_eq!(entry.name(1), "b");
    assert_eq!(entry.name(2), "c");
    assert_eq!(entry.value(0), &SchemaFieldValue::Value(text("4")));
    assert_eq!(entry.get("b"), Some(&SchemaFieldValue::Value(text("2"))));
    assert_eq!(entry.get("d"), None);
    assert_eq!(
        entry.to_value(),
        Value::Object(vec![
            ("a".to_string(), text("4")),
            ("b".to_string(), text("2")),
            ("c".to_string(), text("3")),
        ])
    );
}

#[test]
fn builders_set_what_they_say() {
    let field = Field::builder("author", FieldKind::Id)
        .related("user", "id")
        .index()
        .build();
    assert_eq!(field.name, "author");
    assert_eq!(field.kind, FieldKind::Id);
    assert_eq!(field.related.as_ref().unwrap().schema, "user");
    assert_eq!(field.related.as_ref().unwrap().field, "id");
    assert!(field.index && !field.primary && !field.nullable);
    let schema = test_schema();
    assert_eq!(schema.name, "test");
    assert_eq!(schema.fields.len(), 2);
    assert!(schema.fields[0].primary);
    assert_eq!(schema.fields[1].name, "name");
    let entries = SchemaEntries::builder()
        .entry(SchemaEntry::builder())
        .entries(vec![SchemaEntry::new(), SchemaEntry::new()])
        .build();
    assert_eq!(entries.0.len(), 3);
}
