use database::adaptor::memory::components::ComponentRepository;
use database::adaptor::memory::schema::SchemaRepository;
use database::types::component::{Component, Field as Part, FieldKind as PartKind};
use database::error::Error;
use database::types::guards::Valid;
use database::types::query::{Query, QueryFields};
use database::types::schema::{Field, FieldKind, Schema, SchemaEntries, SchemaEntry, SchemaFieldValue};
use database::types::value::Value;

fn text(s: &str) -> Value {
    Value::String(s.to_string())
}

#[test]
fn test_data_selector() {}

#[test]
fn test_new_schema() {
    let mut repo = SchemaRepository::new();

    let schema = Schema::builder("test")
        .field(Field::builder("id", FieldKind::Id).primary())
        .build();

    repo.create_schema(Valid::assume_valid(schema.clone()))
        .unwrap();
}

#[test]
fn test_create_data() {
    let mut repo = SchemaRepository::new();

    let schema = Schema::builder("test")
        .field(Field::builder("id", FieldKind::Id).primary())
        .field(Field::builder("name", FieldKind::Text))
        .build();

    repo.create_schema(Valid::assume_valid(schema.clone()))
        .unwrap();

    repo.create_schema_entries(
        "test".into(),
        SchemaEntries::builder()
            .entry(
                SchemaEntry::builder()
                    .field("id", text("123"))
                    .field("name", text("1")),
            )
            .build(),
    )
    .unwrap();
}

#[test]
fn kinds_count_up_from_zero() {
    let mut repo = SchemaRepository::new();
    for (i, name) in ["a", "b", "c"].iter().enumerate() {
        let made = repo
            .create_schema(Valid::assume_valid(Schema::builder(name).build()))
            .unwrap();
        assert_eq!(made.kind.kind(), i as u16);
        assert!(!made.kind.is_component());
        assert_eq!(made.name, *name);
    }
    assert_eq!(repo.get_schema("b").unwrap().unwrap().kind.kind(), 1);
    assert!(repo.get_schema("d").unwrap().is_none());
}

#[test]
fn kinds_run_out_after_the_last_number() {
    let mut repo = SchemaRepository::new();
    for i in 0..0x8000u32 {
        let made = repo
            .create_schema(Valid::assume_valid(Schema::builder("s").build()))
            .unwrap();
        assert_eq!(made.kind.kind() as u32, i);
    }
    let r = repo.create_schema(Valid::assume_valid(Schema::builder("s").build()));
    assert_eq!(r, Err(Error::Unknown("no kind is left for another schema".to_string())));
}

#[test]
fn writing_under_a_missing_schema_fails() {
    let mut repo = SchemaRepository::new();
    let r = repo.create_schema_entries(
        "nope".into(),
        SchemaEntries::builder().entry(SchemaEntry::builder()).build(),
    );
    assert_eq!(r, Err(Error::SchemaNotFound("nope".to_string())));
}

#[test]
fn nested_entries_fan_out_to_their_schemas() {
    let mut repo = SchemaRepository::new();
    for name in ["post", "comment"] {
        repo.create_schema(Valid::assume_valid(Schema::builder(name).build()))
            .unwrap();
    }
    repo.create_schema_entries(
        "post".into(),
        SchemaEntries::builder()
            .entry(
                SchemaEntry::builder().field("title", text("t")).nested(
                    "comment",
                    SchemaEntries::builder()
                        .entry(SchemaEntry::builder().field("body", text("c1")))
                        .entry(SchemaEntry::builder().field("body", text("c2"))),
                ),
            )
            .build(),
    )
    .unwrap();

    let posts = repo
        .read_schema_data(
            Query::builder("post")
                .fields(QueryFields::builder().field("title"))
                .build(),
        )
        .unwrap();
    assert_eq!(posts.0.len(), 1);
    assert_eq!(posts.0[0].len(), 1);
    assert_eq!(posts.0[0].get("title"), Some(&SchemaFieldValue::Value(text("t"))));

    let comments = repo
        .read_schema_data(
            Query::builder("comment")
                .fields(QueryFields::builder().field("body"))
                .build(),
        )
        .unwrap();
    assert_eq!(comments.0.len(), 2);
    assert_eq!(comments.0[0].get("body"), Some(&SchemaFieldValue::Value(text("c1"))));
    assert_eq!(comments.0[1].get("body"), Some(&SchemaFieldValue::Value(text("c2"))));
}

#[test]
fn nested_write_stops_at_a_missing_schema_and_keeps_what_was_written() {
    let mut repo = SchemaRepository::new();
    repo.create_schema(Valid::assume_valid(Schema::builder("post").build()))
        .unwrap();
    let r = repo.create_schema_entries(
        "post".into(),
        SchemaEntries::builder()
            .entry(SchemaEntry::builder().field("title", text("t")).nested(
                "comment",
                SchemaEntries::builder().entry(SchemaEntry::builder()),
            ))
            .build(),
    );
    assert_eq!(r, Err(Error::SchemaNotFound("comment".to_string())));
    let posts = repo
        .read_schema_data(
            Query::builder("post")
                .fields(QueryFields::builder().field("title"))
                .build(),
        )
        .unwrap();
    assert_eq!(posts.0.len(), 1);
}

#[test]
fn reading_a_field_that_a_row_lacks_fails() {
    let mut repo = SchemaRepository::new();
    repo.create_schema(Valid::assume_valid(Schema::builder("test").build()))
        .unwrap();
    repo.create_schema_entries(
        "test".into(),
        SchemaEntries::builder()
            .entry(SchemaEntry::builder().field("name", text("1")))
            .build(),
    )
    .unwrap();
    let r = repo.read_schema_data(
        Query::builder("test")
            .fields(QueryFields::builder().field("name").field("age"))
            .build(),
    );
    assert_eq!(
        r,
        Err(Error::MissingField { schema: "test".to_string(), field: "age".to_string() })
    );
    let r = repo.read_schema_data(Query::builder("other").build());
    assert_eq!(r, Err(Error::SchemaNotFound("other".to_string())));
}

#[test]
fn components_are_kept_by_name() {
    let mut repo = ComponentRepository::new();
    let component = |name: &str, field: &str| Component {
        name: name.to_string(),
        fields: vec![Part {
            name: field.to_string(),
            kind: PartKind::Component { name: "other".to_string() },
            related: None,
            primary: false,
            index: true,
        }],
    };
    assert_eq!(repo.get_component("seo"), Ok(None));
    repo.set_component(component("seo", "title")).unwrap();
    repo.set_component(component("address", "street")).unwrap();
    repo.set_component(component("seo", "description")).unwrap();
    assert_eq!(repo.get_component("seo"), Ok(Some(component("seo", "description"))));
    assert_eq!(repo.get_component("address"), Ok(Some(component("address", "street"))));
    repo.delete_component("seo").unwrap();
    repo.delete_component("gone").unwrap();
    assert_eq!(repo.get_component("seo"), Ok(None));
    assert_eq!(repo.get_component("address"), Ok(Some(component("address", "street"))));
}

#[test]
fn creating_a_schema_again_replaces_it_and_empties_its_rows() {
    let mut repo = SchemaRepository::new();
    let first = repo
        .create_schema(Valid::assume_valid(Schema::builder("test").build()))
        .unwrap();
    repo.create_schema_entries(
        "test".into(),
        SchemaEntries::builder()
            .entry(SchemaEntry::builder().field("name", text("1")))
            .build(),
    )
    .unwrap();
    let second = repo
        .create_schema(Valid::assume_valid(
            Schema::builder("test")
                .field(Field::builder("name", FieldKind::Text))
                .build(),
        ))
        .unwrap();
    repo.kinds_are_unique();
    assert_eq!(first.kind.kind(), 0);
    assert_eq!(second.kind.kind(), 1);
    assert_eq!(repo.get_schema("test").unwrap(), Some(second));
    let read = repo
        .read_schema_data(Query::builder("test").build())
        .unwrap();
    assert_eq!(read.0.len(), 0);
}
