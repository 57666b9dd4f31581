//! Kinds of fields that a user can configure: whole numbers within
//! bounds, and texts up to a length.

use crate::types::names::{
    compare, lemma_to_map, lemma_with_name, named, put, search, sorted, to_map,
    Order,
};
use crate::types::value::{first_member, Json, Number, Value};
use vstd::prelude::*;
use vstd::string::StringSliceAdditionalSpecFns;
use vstd::utf8::encode_utf8;

verus! {

/// Says that a value does not meet the rules of its field.
#[derive(Debug, Clone, Copy, PartialEq, Eq, Structural)]
pub enum ValidateError {
    ValidationFailed,
}

/// Why no field could be made of a kind's name and settings.
#[derive(Debug, PartialEq, Eq)]
pub enum ParseFieldError {
    /// No kind has the name.
    KindNotFound(String),
    /// The settings of these names cannot be read.
    InvalidSettings { settings: Vec<String> },
}

/// The type that a field's values have where they are stored.
#[derive(Debug, Clone, Copy, PartialEq, Eq, Structural)]
pub enum PersistentKind {
    Id,
    ComponentRelation,
    Boolean,
    Int,
    Float,
    Text,
    Json,
    DateTime,
}

/// The settings of a field, by name.
pub type Settings = Vec<(String, Value)>;

/// The mathematical form of settings.
pub open spec fn settings_view(settings: Seq<(String, Value)>) -> Seq<(Seq<char>, Json)> {
    Seq::new(settings.len(), |i: int| (settings[i].0@, settings[i].1@))
}

/// The first of `settings` that has the given name.
fn setting<'a>(settings: &'a Settings, name: &str) -> (r: Option<&'a Value>)
    ensures
        match r {
            Some(value) => first_member(settings_view(settings@), name@) == Some(value@),
            None => first_member(settings_view(settings@), name@) is None,
        },
{
    let ghost all = settings_view(settings@);
    let mut i: usize = 0;
    assert(all.subrange(0, all.len() as int) =~= all);
    while i < settings.len()
        invariant
            i <= settings.len(),
            all == settings_view(settings@),
            first_member(all.subrange(i as int, all.len() as int), name@) == first_member(
                all,
                name@,
            ),
        decreases settings.len() - i,
    {
        let ghost tail = all.subrange(i as int, all.len() as int);
        proof {
            assert(tail[0] == all[i as int]);
            assert(tail.drop_first() =~= all.subrange(i as int + 1, all.len() as int));
        }
        if compare(settings[i].0.as_str(), name) == Order::Equal {
            return Some(&settings[i].1);
        }
        i += 1;
    }
    None
}

/// The kind of field that holds a whole number.
#[derive(Debug, Clone, Copy, PartialEq, Eq, Structural)]
pub struct NumberFieldKind;

/// The rules of a number field: its values are at least `min` and less
/// than `max`.
#[derive(Debug, Clone, Copy, PartialEq, Eq, Structural)]
pub struct NumberFieldSchema {
    pub max: i64,
    pub min: i64,
}

/// A value of a number field.
#[derive(Debug, Clone, Copy, PartialEq, Eq, Structural)]
pub struct NumberField(pub i64);

/// The bound that a setting gives: the one that is given as a whole
/// number of 64 bits, or `otherwise` where none is given. A setting that
/// is no such number cannot be read.
pub open spec fn bound_of(settings: Seq<(Seq<char>, Json)>, name: Seq<char>, otherwise: i64) -> Option<
    i64,
> {
    match first_member(settings, name) {
        None => Some(otherwise),
        Some(Json::Number(n)) => n.spec_as_i64(),
        Some(_) => None,
    }
}

/// The rules that settings give to a number field, or the name of the
/// first setting that cannot be read.
pub open spec fn number_schema_of(settings: Seq<(Seq<char>, Json)>) -> Result<
    NumberFieldSchema,
    Seq<char>,
> {
    match bound_of(settings, "max"@, i64::MAX) {
        None => Err("max"@),
        Some(max) => match bound_of(settings, "min"@, i64::MIN) {
            None => Err("min"@),
            Some(min) => Ok(NumberFieldSchema { max, min }),
        },
    }
}

/// The bound that a setting gives.
fn bound(settings: &Settings, name: &str, otherwise: i64) -> (r: Option<i64>)
    ensures
        r == bound_of(settings_view(settings@), name@, otherwise),
{
    match setting(settings, name) {
        None => Some(otherwise),
        Some(Value::Number(n)) => n.as_i64(),
        Some(_) => None,
    }
}

impl NumberFieldKind {
    /// The name of the kind.
    pub fn name() -> (r: String)
        ensures
            r@ == "number"@,
    {
        "number".to_owned()
    }

    /// Reads the rules of a number field from its settings. A bound that
    /// is not given is the least or the greatest number.
    pub fn parse(&self, settings: &Settings) -> (r: Result<NumberFieldSchema, ParseFieldError>)
        ensures
            match r {
                Ok(schema) => number_schema_of(settings_view(settings@)) == Ok::<
                    NumberFieldSchema,
                    Seq<char>,
                >(schema),
                Err(ParseFieldError::InvalidSettings { settings: names }) => names@.len() == 1
                    && number_schema_of(settings_view(settings@)) == Err::<
                    NumberFieldSchema,
                    Seq<char>,
                >(names@[0]@),
                Err(_) => false,
            },
    {
        match bound(settings, "max", i64::MAX) {
            None => Err(ParseFieldError::InvalidSettings { settings: vec!["max".to_owned()] }),
            Some(max) => match bound(settings, "min", i64::MIN) {
                None => Err(ParseFieldError::InvalidSettings { settings: vec!["min".to_owned()] }),
                Some(min) => Ok(NumberFieldSchema { max, min }),
            },
        }
    }
}

impl Default for NumberFieldSchema {
    fn default() -> (r: NumberFieldSchema)
        ensures
            r == (NumberFieldSchema { max: i64::MAX, min: i64::MIN }),
    {
        NumberFieldSchema { max: i64::MAX, min: i64::MIN }
    }
}

impl NumberFieldSchema {
    /// The settings that say the rules: each bound that is not the least
    /// or the greatest number, `max` before `min`.
    pub open spec fn spec_settings(self) -> Seq<(Seq<char>, Json)> {
        let max = if self.max != i64::MAX {
            seq![("max"@, Json::Number(whole(self.max)))]
        } else {
            Seq::empty()
        };
        let min = if self.min != i64::MIN {
            seq![("min"@, Json::Number(whole(self.min)))]
        } else {
            Seq::empty()
        };
        max + min
    }

    /// The value of a number field that `value` is, if it is a whole
    /// number within the bounds.
    pub open spec fn accepts(self, value: Json) -> Option<i64> {
        match value {
            Json::Number(n) => match n.spec_as_i64() {
                Some(num) => if self.min <= num < self.max {
                    Some(num)
                } else {
                    None
                },
                None => None,
            },
            _ => None,
        }
    }

    /// The name of the kind of field.
    pub fn kind(&self) -> (r: String)
        ensures
            r@ == "number"@,
    {
        NumberFieldKind::name()
    }

    /// The settings that say the rules.
    pub fn settings(&self) -> (r: Settings)
        ensures
            settings_view(r@) == self.spec_settings(),
    {
        let mut settings: Settings = Vec::new();
        if self.max != i64::MAX {
            settings.push(("max".to_owned(), Value::Number(whole_number(self.max))));
        }
        if self.min != i64::MIN {
            settings.push(("min".to_owned(), Value::Number(whole_number(self.min))));
        }
        assert(settings_view(settings@) =~= self.spec_settings());
        settings
    }

    /// Checks a value that a caller gives: it must be a whole number, at
    /// least `min` and less than `max`.
    pub fn from_api(&self, value: &Value) -> (r: Result<NumberField, ValidateError>)
        ensures
            match r {
                Ok(field) => self.accepts(value@) == Some(field.0),
                Err(_) => self.accepts(value@) is None,
            },
    {
        match value {
            Value::Number(n) => match n.as_i64() {
                Some(num) => if num < self.min || num >= self.max {
                    Err(ValidateError::ValidationFailed)
                } else {
                    Ok(NumberField(num))
                },
                None => Err(ValidateError::ValidationFailed),
            },
            _ => Err(ValidateError::ValidationFailed),
        }
    }

    /// The type that the values have where they are stored.
    pub fn persistent_kind(&self) -> (r: PersistentKind)
        ensures
            r == PersistentKind::Int,
    {
        PersistentKind::Int
    }
}

/// The JSON number that a whole number is.
pub open spec fn whole(n: i64) -> Number {
    if n >= 0 {
        Number::PosInt(n as u64)
    } else {
        Number::NegInt(n)
    }
}

/// The JSON number that a whole number is.
pub fn whole_number(n: i64) -> (r: Number)
    ensures
        r == whole(n),
{
    if n >= 0 {
        Number::PosInt(n as u64)
    } else {
        Number::NegInt(n)
    }
}

impl NumberField {
    /// The value as it is stored.
    pub fn into_persistent(self) -> (r: Value)
        ensures
            r@ == Json::Number(whole(self.0)),
    {
        Value::Number(whole_number(self.0))
    }
}

/// The kind of field that holds a text.
#[derive(Debug, Clone, Copy, PartialEq, Eq, Structural)]
pub struct TextFieldKind;

/// The rules of a text field: its values have at most `max_length`
/// bytes.
#[derive(Debug, Clone, Copy, PartialEq, Eq, Structural)]
pub struct TextFieldSchema {
    pub max_length: usize,
}

/// A value of a text field.
#[derive(Debug, Clone, PartialEq, Eq)]
pub struct TextField(pub String);

/// The length that a text may have where no setting says it.
pub open spec fn default_max_length() -> usize {
    255
}

/// The rules that settings give to a text field, or the name of the
/// setting that cannot be read: the greatest length must be a natural
/// number that the machine can hold.
pub open spec fn text_schema_of(settings: Seq<(Seq<char>, Json)>) -> Result<
    TextFieldSchema,
    Seq<char>,
> {
    match first_member(settings, "max_length"@) {
        None => Ok(TextFieldSchema { max_length: default_max_length() }),
        Some(Json::Number(Number::PosInt(n))) => if n <= usize::MAX {
            Ok(TextFieldSchema { max_length: n as usize })
        } else {
            Err("max_length"@)
        },
        Some(_) => Err("max_length"@),
    }
}

impl TextFieldKind {
    /// The name of the kind.
    pub fn name() -> (r: String)
        ensures
            r@ == "text"@,
    {
        "text".to_owned()
    }

    /// Reads the rules of a text field from its settings. Where no length
    /// is given it is 255.
    pub fn parse(&self, settings: &Settings) -> (r: Result<TextFieldSchema, ParseFieldError>)
        ensures
            match r {
                Ok(schema) => text_schema_of(settings_view(settings@)) == Ok::<
                    TextFieldSchema,
                    Seq<char>,
                >(schema),
                Err(ParseFieldError::InvalidSettings { settings: names }) => names@.len() == 1
                    && text_schema_of(settings_view(settings@)) == Err::<TextFieldSchema, Seq<char>>(
                    names@[0]@,
                ),
                Err(_) => false,
            },
    {
        match setting(settings, "max_length") {
            None => Ok(TextFieldSchema { max_length: 255 }),
            Some(Value::Number(Number::PosInt(n))) => {
                if *n <= usize::MAX as u64 {
                    Ok(TextFieldSchema { max_length: *n as usize })
                } else {
                    Err(
                        ParseFieldError::InvalidSettings {
                            settings: vec!["max_length".to_owned()],
                        },
                    )
                }
            },
            Some(_) => Err(
                ParseFieldError::InvalidSettings { settings: vec!["max_length".to_owned()] },
            ),
        }
    }
}

impl Default for TextFieldSchema {
    fn default() -> (r: TextFieldSchema)
        ensures
            r == (TextFieldSchema { max_length: default_max_length() }),
    {
        TextFieldSchema { max_length: 255 }
    }
}

impl TextFieldSchema {
    /// The settings that say the rules: the greatest length, unless it is
    /// 255.
    pub open spec fn spec_settings(self) -> Seq<(Seq<char>, Json)> {
        if self.max_length != default_max_length() {
            seq![("max_length"@, Json::Number(Number::PosInt(self.max_length as u64)))]
        } else {
            Seq::empty()
        }
    }

    /// Whether `value` is a text of at most `max_length` bytes.
    pub open spec fn accepts(self, value: Json) -> bool {
        value matches Json::String(text) && encode_utf8(text).len() <= self.max_length
    }

    /// The name of the kind of field.
    pub fn kind(&self) -> (r: String)
        ensures
            r@ == "text"@,
    {
        TextFieldKind::name()
    }

    /// The settings that say the rules.
    pub fn settings(&self) -> (r: Settings)
        ensures
            settings_view(r@) == self.spec_settings(),
    {
        let mut settings: Settings = Vec::new();
        if self.max_length != 255 {
            settings.push(
                ("max_length".to_owned(), Value::Number(Number::PosInt(self.max_length as u64))),
            );
        }
        assert(settings_view(settings@) =~= self.spec_settings());
        settings
    }

    /// Checks a value that a caller gives: it must be a text of at most
    /// `max_length` bytes.
    pub fn from_api(&self, value: &Value) -> (r: Result<TextField, ValidateError>)
        ensures
            match r {
                Ok(field) => self.accepts(value@) && value@ == Json::String(field.0@),
                Err(_) => !self.accepts(value@),
            },
    {
        match value {
            Value::String(text) => if text.as_str().as_bytes().len() > self.max_length {
                Err(ValidateError::ValidationFailed)
            } else {
                Ok(TextField(text.clone()))
            },
            _ => Err(ValidateError::ValidationFailed),
        }
    }

    /// The type that the values have where they are stored.
    pub fn persistent_kind(&self) -> (r: PersistentKind)
        ensures
            r == PersistentKind::Text,
    {
        PersistentKind::Text
    }
}

impl TextField {
    /// The value as it is stored.
    pub fn into_persistent(self) -> (r: Value)
        ensures
            r@ == Json::String(self.0@),
    {
        Value::String(self.0)
    }
}

/// A kind of field, whichever it is.
#[derive(Debug, Clone, Copy, PartialEq, Eq, Structural)]
pub enum AnyFieldKind {
    Number(NumberFieldKind),
    Text(TextFieldKind),
}

/// The rules of a field, of whichever kind it is.
#[derive(Debug, Clone, Copy, PartialEq, Eq, Structural)]
pub enum AnyFieldSchema {
    Number(NumberFieldSchema),
    Text(TextFieldSchema),
}

/// The rules that a kind reads from settings, or the name of the first
/// setting that it cannot read.
pub open spec fn schema_of(kind: AnyFieldKind, settings: Seq<(Seq<char>, Json)>) -> Result<
    AnyFieldSchema,
    Seq<char>,
> {
    match kind {
        AnyFieldKind::Number(_) => match number_schema_of(settings) {
            Ok(schema) => Ok(AnyFieldSchema::Number(schema)),
            Err(name) => Err(name),
        },
        AnyFieldKind::Text(_) => match text_schema_of(settings) {
            Ok(schema) => Ok(AnyFieldSchema::Text(schema)),
            Err(name) => Err(name),
        },
    }
}

impl AnyFieldKind {
    /// The name of the kind.
    pub open spec fn spec_name(self) -> Seq<char> {
        match self {
            AnyFieldKind::Number(_) => "number"@,
            AnyFieldKind::Text(_) => "text"@,
        }
    }

    /// The name of the kind.
    pub fn name(&self) -> (r: String)
        ensures
            r@ == self.spec_name(),
    {
        match self {
            AnyFieldKind::Number(_) => NumberFieldKind::name(),
            AnyFieldKind::Text(_) => TextFieldKind::name(),
        }
    }

    /// Reads the rules of a field of this kind from its settings.
    pub fn parse(&self, settings: &Settings) -> (r: Result<AnyFieldSchema, ParseFieldError>)
        ensures
            match r {
                Ok(schema) => schema_of(*self, settings_view(settings@)) == Ok::<
                    AnyFieldSchema,
                    Seq<char>,
                >(schema),
                Err(ParseFieldError::InvalidSettings { settings: names }) => names@.len() == 1
                    && schema_of(*self, settings_view(settings@)) == Err::<
                    AnyFieldSchema,
                    Seq<char>,
                >(names@[0]@),
                Err(_) => false,
            },
    {
        match self {
            AnyFieldKind::Number(kind) => match kind.parse(settings) {
                Ok(schema) => Ok(AnyFieldSchema::Number(schema)),
                Err(e) => Err(e),
            },
            AnyFieldKind::Text(kind) => match kind.parse(settings) {
                Ok(schema) => Ok(AnyFieldSchema::Text(schema)),
                Err(e) => Err(e),
            },
        }
    }
}

/// The kinds of fields that there are, by name.
#[derive(Debug)]
pub struct Fields {
    kinds: Vec<(String, AnyFieldKind)>,
}

impl View for Fields {
    type V = Map<Seq<char>, AnyFieldKind>;

    /// The kinds by name.
    closed spec fn view(&self) -> Map<Seq<char>, AnyFieldKind> {
        to_map(named(self.kinds@))
    }
}

impl Fields {
    #[verifier::type_invariant]
    closed spec fn names_rise(self) -> bool {
        sorted(named(self.kinds@))
    }

    /// The kinds that are there from the start: numbers and texts.
    pub open spec fn defaults() -> Map<Seq<char>, AnyFieldKind> {
        Map::<Seq<char>, AnyFieldKind>::empty().insert(
            "number"@,
            AnyFieldKind::Number(NumberFieldKind),
        ).insert("text"@, AnyFieldKind::Text(TextFieldKind))
    }

    /// No kinds.
    pub fn new() -> (r: Fields)
        ensures
            r@ == Map::<Seq<char>, AnyFieldKind>::empty(),
    {
        let r = Fields { kinds: Vec::new() };
        assert(r@ =~= Map::empty());
        r
    }

    /// Adds a kind under its name, in the place of a kind of that name.
    pub fn insert(&mut self, kind: AnyFieldKind)
        ensures
            final(self)@ == old(self)@.insert(kind.spec_name(), kind),
    {
        proof {
            use_type_invariant(&*self);
        }
        let mut taken = Fields::new();
        core::mem::swap(self, &mut taken);
        let Fields { mut kinds } = taken;
        proof {
            lemma_with_name(named(kinds@), kind.spec_name(), kind);
        }
        let _ = put(&mut kinds, kind.name(), kind);
        *self = Fields { kinds };
    }

    /// Whether there is a kind of the given name.
    pub fn has_kind(&self, name: &str) -> (r: bool)
        ensures
            r == self@.contains_key(name@),
    {
        proof {
            use_type_invariant(self);
        }
        let (_, found) = search(&self.kinds, name);
        found
    }

    /// Reads the rules of a field of the kind of the given name from its
    /// settings.
    pub fn parse_field(&self, name: &str, settings: &Settings) -> (r: Result<
        AnyFieldSchema,
        ParseFieldError,
    >)
        ensures
            match r {
                Ok(schema) => self@.contains_key(name@) && schema_of(
                    self@[name@],
                    settings_view(settings@),
                ) == Ok::<AnyFieldSchema, Seq<char>>(schema),
                Err(ParseFieldError::KindNotFound(missing)) => !self@.contains_key(name@)
                    && missing@ == name@,
                Err(ParseFieldError::InvalidSettings { settings: names }) => self@.contains_key(
                    name@,
                ) && names@.len() == 1 && schema_of(self@[name@], settings_view(settings@))
                    == Err::<AnyFieldSchema, Seq<char>>(names@[0]@),
            },
    {
        proof {
            use_type_invariant(self);
        }
        let (at, found) = search(&self.kinds, name);
        if !found {
            return Err(ParseFieldError::KindNotFound(name.to_owned()));
        }
        proof {
            lemma_to_map(named(self.kinds@), at as int);
        }
        self.kinds[at].1.parse(settings)
    }
}

impl Default for Fields {
    fn default() -> (r: Fields)
        ensures
            r@ == Fields::defaults(),
    {
        let mut this = Fields::new();
        this.insert(AnyFieldKind::Number(NumberFieldKind));
        this.insert(AnyFieldKind::Text(TextFieldKind));
        this
    }
}

} // verus!
