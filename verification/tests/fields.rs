use database::fields::{
    AnyFieldKind, AnyFieldSchema, Fields, NumberField, NumberFieldKind, NumberFieldSchema,
    ParseFieldError, PersistentKind, TextField, TextFieldKind, TextFieldSchema, ValidateError,
};
use database::types::value::{Number, Value};

fn num(n: u64) -> Value {
    Value::Number(Number::PosInt(n))
}

fn text(s: &str) -> Value {
    Value::String(s.to_string())
}

fn invalid(name: &str) -> ParseFieldError {
    ParseFieldError::InvalidSettings { settings: vec![name.to_string()] }
}

#[test]
fn number_field_keeps_its_bounds() {
    let schema = NumberFieldSchema { max: 10, min: -2 };
    assert_eq!(schema.from_api(&num(0)), Ok(NumberField(0)));
    assert_eq!(schema.from_api(&num(9)), Ok(NumberField(9)));
    assert_eq!(schema.from_api(&Value::Number(Number::NegInt(-2))), Ok(NumberField(-2)));
    assert_eq!(schema.from_api(&num(10)), Err(ValidateError::ValidationFailed));
    assert_eq!(
        schema.from_api(&Value::Number(Number::NegInt(-3))),
        Err(ValidateError::ValidationFailed)
    );
    assert_eq!(
        schema.from_api(&Value::Number(Number::Float(1.5f64.to_bits()))),
        Err(ValidateError::ValidationFailed)
    );
    assert_eq!(schema.from_api(&text("1")), Err(ValidateError::ValidationFailed));
    assert_eq!(
        NumberFieldSchema::default().from_api(&num(i64::MAX as u64)),
        Err(ValidateError::ValidationFailed)
    );
    assert_eq!(
        NumberFieldSchema::default().from_api(&Value::Number(Number::NegInt(i64::MIN))),
        Ok(NumberField(i64::MIN))
    );
    assert_eq!(schema.kind(), "number");
    assert_eq!(schema.persistent_kind(), PersistentKind::Int);
    assert_eq!(NumberField(7).into_persistent(), num(7));
    assert_eq!(NumberField(-7).into_persistent(), Value::Number(Number::NegInt(-7)));
}

#[test]
fn number_field_settings_go_there_and_back() {
    assert_eq!(NumberFieldSchema::default().settings(), vec![]);
    let schema = NumberFieldSchema { max: 10, min: -2 };
    let settings = schema.settings();
    assert_eq!(
        settings,
        vec![
            ("max".to_string(), num(10)),
            ("min".to_string(), Value::Number(Number::NegInt(-2))),
        ]
    );
    assert_eq!(NumberFieldKind.parse(&settings), Ok(schema));
    assert_eq!(NumberFieldKind.parse(&vec![]), Ok(NumberFieldSchema::default()));
    assert_eq!(
        NumberFieldKind.parse(&vec![("other".to_string(), Value::Null)]),
        Ok(NumberFieldSchema { max: i64::MAX, min: i64::MIN })
    );
    assert_eq!(NumberFieldKind.parse(&vec![("max".to_string(), text("1"))]), Err(invalid("max")));
    assert_eq!(
        NumberFieldKind.parse(&vec![("min".to_string(), num(u64::MAX)), ("max".to_string(), num(1))]),
        Err(invalid("min"))
    );
}

#[test]
fn text_field_keeps_its_length() {
    let schema = TextFieldSchema { max_length: 3 };
    assert_eq!(schema.from_api(&text("abc")), Ok(TextField("abc".to_string())));
    assert_eq!(schema.from_api(&text("")), Ok(TextField(String::new())));
    assert_eq!(schema.from_api(&text("abcd")), Err(ValidateError::ValidationFailed));
    // two bytes each
    assert_eq!(schema.from_api(&text("éé")), Err(ValidateError::ValidationFailed));
    assert_eq!(schema.from_api(&num(1)), Err(ValidateError::ValidationFailed));
    assert_eq!(TextFieldSchema::default().max_length, 255);
    assert_eq!(schema.kind(), "text");
    assert_eq!(schema.persistent_kind(), PersistentKind::Text);
    assert_eq!(TextField("x".to_string()).into_persistent(), text("x"));
    assert_eq!(TextFieldSchema::default().settings(), vec![]);
    assert_eq!(schema.settings(), vec![("max_length".to_string(), num(3))]);
    assert_eq!(TextFieldKind.parse(&schema.settings()), Ok(schema));
    assert_eq!(TextFieldKind.parse(&vec![]), Ok(TextFieldSchema { max_length: 255 }));
    assert_eq!(
        TextFieldKind.parse(&vec![("max_length".to_string(), Value::Number(Number::NegInt(-1)))]),
        Err(invalid("max_length"))
    );
}

#[test]
fn kinds_are_found_by_name() {
    let mut fields = Fields::new();
    assert!(!fields.has_kind("number"));
    assert_eq!(
        fields.parse_field("number", &vec![]),
        Err(ParseFieldError::KindNotFound("number".to_string()))
    );
    fields.insert(AnyFieldKind::Number(NumberFieldKind));
    assert!(fields.has_kind("number"));
    assert!(!fields.has_kind("text"));
    let fields = Fields::default();
    assert!(fields.has_kind("number") && fields.has_kind("text"));
    assert_eq!(
        fields.parse_field("text", &vec![("max_length".to_string(), num(9))]),
        Ok(AnyFieldSchema::Text(TextFieldSchema { max_length: 9 }))
    );
    assert_eq!(
        fields.parse_field("number", &vec![("min".to_string(), num(1))]),
        Ok(AnyFieldSchema::Number(NumberFieldSchema { max: i64::MAX, min: 1 }))
    );
    assert_eq!(fields.parse_field("number", &vec![("min".to_string(), Value::Null)]), Err(invalid("min")));
    assert_eq!(
        fields.parse_field("media", &vec![]),
        Err(ParseFieldError::KindNotFound("media".to_string()))
    );
    assert_eq!(AnyFieldKind::Text(TextFieldKind).name(), "text");
}
