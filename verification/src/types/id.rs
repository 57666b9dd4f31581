//! Compact typed identifiers.

pub use crate::types::encoding::ParseIdError;
use crate::types::encoding::{
    as_chars, decode_url_safe, decoded, encode_url_safe, encoded, lemma_decode_encode, refusal,
    well_formed,
};
use crate::types::value::{Json, Value};
use rand::rngs::OsRng;
use rand::RngCore;
use std::time::{Duration, SystemTime, SystemTimeError};
use vstd::prelude::*;
use vstd::utf8::{encode_utf8, is_ascii_chars, is_ascii_chars_encode_utf8};

verus! {

/// A 16 bit tag: one bit that tells components from schemas, followed by a
/// 15 bit number assigned by the registry.
///
/// ```text
/// +---------+------+
/// |component|number|
/// +---------+------+
/// |    1    |  15  |
/// +---------+------+
/// ```
#[derive(Debug, Clone, Copy, PartialEq, Eq, Hash)]
pub struct Kind([u8; 2]);

impl View for Kind {
    type V = Seq<u8>;

    /// The two bytes of the tag, most significant first.
    closed spec fn view(&self) -> Seq<u8> {
        self.0@
    }
}

impl Kind {
    /// Whether the component bit is set.
    pub open spec fn component(self) -> bool {
        self@[0] >= 0x80
    }

    /// The 15 bit number held by the tag.
    pub open spec fn number(self) -> int {
        (self@[0] % 0x80) * 0x100 + self@[1]
    }

    /// The largest number a tag can hold.
    pub open spec fn max_number() -> int {
        0x7FFF
    }

    /// The tag with the given component bit and number, where the number
    /// is no greater than the largest one.
    pub closed spec fn packed(component: bool, number: u16) -> Kind {
        Kind(
            [
                if component {
                    (number / 0x100 + 0x80) as u8
                } else {
                    (number / 0x100) as u8
                },
                (number % 0x100) as u8,
            ],
        )
    }

    /// A tag holds the component bit and the number that it was packed
    /// with, for every number up to the largest one.
    pub proof fn lemma_packed(component: bool, number: u16)
        requires
            number <= Kind::max_number(),
        ensures
            Kind::packed(component, number).component() == component,
            Kind::packed(component, number).number() == number,
    {
    }

    /// A tag is what its component bit and its number say: two tags that
    /// agree on both are the same.
    pub proof fn lemma_determined(self, other: Kind)
        requires
            self.number() == other.number(),
            self.component() == other.component(),
        ensures
            self == other,
    {
        assert(self.0@.len() == 2 && other.0@.len() == 2);
        assert(self.0@[0] == other.0@[0]);
        assert(self.0@[1] == other.0@[1]);
        assert(self.0 =~= other.0);
    }

    /// Packs the component bit and the number into a tag.
    pub fn new(component: bool, kind: u16) -> (r: Kind)
        requires
            kind <= Kind::max_number(),
        ensures
            r == Kind::packed(component, kind),
            r.component() == component,
            r.number() == kind,
    {
        let hi: u8 = (kind >> 8) as u8;
        let lo: u8 = (kind & 0xff) as u8;
        assert(hi < 0x80 && hi == kind / 0x100 && lo == kind % 0x100) by (bit_vector)
            requires
                kind <= 0x7FFFu16,
                hi == (kind >> 8) as u8,
                lo == (kind & 0xff) as u8,
        ;
        let first: u8 = if component { hi + 0x80 } else { hi };
        let r = Kind([first, lo]);
        assert(r.0 =~= Kind::packed(component, kind).0);
        r
    }

    /// Packs the component bit and the number into a tag, unless the
    /// number is greater than the largest one.
    pub fn checked_new(component: bool, kind: u16) -> (r: Option<Kind>)
        ensures
            r == if kind <= Kind::max_number() {
                Some(Kind::packed(component, kind))
            } else {
                None
            },
    {
        if kind <= 0x7FFF {
            Some(Kind::new(component, kind))
        } else {
            None
        }
    }

    /// Whether the tag belongs to a component.
    pub fn is_component(&self) -> (r: bool)
        ensures
            r == self.component(),
    {
        self.0[0] >= 0x80
    }

    /// The number held by the tag.
    pub fn kind(&self) -> (r: u16)
        ensures
            r == self.number(),
    {
        let hi: u16 = (self.0[0] % 0x80) as u16;
        let lo: u16 = self.0[1] as u16;
        hi * 0x100 + lo
    }
}

#[verifier::external_type_specification]
#[verifier::external_body]
pub struct ExSystemTime(SystemTime);

#[verifier::external_type_specification]
#[verifier::external_body]
pub struct ExSystemTimeError(SystemTimeError);

/// The clock's reading: nothing is known of it.
pub assume_specification[ SystemTime::now ]() -> (now: SystemTime)
;

/// Calls `SystemTime::duration_since` with the start of 1970, which
/// gives the time since then, or an error where the clock is set before
/// it. Nothing is claimed of either.
#[verifier::external_body]
fn since_epoch(now: &SystemTime) -> (r: Result<Duration, SystemTimeError>) {
    now.duration_since(SystemTime::UNIX_EPOCH)
}

/// The whole seconds of a duration: nothing is known of them.
pub assume_specification[ Duration::as_secs ](d: &Duration) -> (secs: u64)
;

/// Calls `RngCore::try_fill_bytes` on `OsRng` of the rand crate, which
/// asks the operating system for six random bytes and gives none where
/// the operating system fails. Nothing is claimed of the bytes, nor of
/// when there are any.
#[verifier::external_body]
fn random_bytes() -> (bytes: Option<[u8; 6]>) {
    let mut bytes = [0u8; 6];
    match OsRng.try_fill_bytes(&mut bytes) {
        Ok(()) => Some(bytes),
        Err(_) => None,
    }
}

/// A 96 bit identifier.
///
/// ```text
/// +-------+------+----+
/// |seconds|random|kind|
/// +-------+------+----+
/// |  40   |  40  | 16 |
/// +-------+------+----+
/// ```
#[derive(Debug, Clone, Copy, PartialEq, Eq, Hash)]
pub struct Id([u8; 12]);

impl View for Id {
    type V = Seq<u8>;

    /// The twelve bytes of the identifier.
    closed spec fn view(&self) -> Seq<u8> {
        self.0@
    }
}

/// The `i`-th of the five bytes that hold the low 40 bits of `secs`, most
/// significant first.
pub open spec fn seconds_byte(secs: u64, i: int) -> u8 {
    if i == 0 {
        ((secs >> 32) & 0xff) as u8
    } else if i == 1 {
        ((secs >> 24) & 0xff) as u8
    } else if i == 2 {
        ((secs >> 16) & 0xff) as u8
    } else if i == 3 {
        ((secs >> 8) & 0xff) as u8
    } else {
        (secs & 0xff) as u8
    }
}

/// The bytes of an identifier made at `secs` seconds with the random
/// bytes `random` for the tag `kind`. The tag takes the last two bytes, so
/// only the first five random bytes stay.
pub open spec fn layout(secs: u64, random: Seq<u8>, kind: Seq<u8>) -> Seq<u8> {
    Seq::new(
        12,
        |i: int|
            if i < 5 {
                seconds_byte(secs, i)
            } else if i < 10 {
                random[i - 5]
            } else {
                kind[i - 10]
            },
    )
}

/// What parsing makes of the bytes of a text: the twelve bytes that they
/// stand for, or the reason why they stand for none.
pub open spec fn parse_bytes(bytes: Seq<u8>) -> Result<Seq<u8>, ParseIdError> {
    if bytes.len() != 16 {
        Err(ParseIdError::InvalidLength(bytes.len() as usize))
    } else if !well_formed(bytes) {
        Err(refusal(bytes))
    } else {
        Ok(decoded(bytes))
    }
}

/// What parsing makes of a text: what it makes of its UTF-8 bytes.
pub open spec fn parse_spec(text: Seq<char>) -> Result<Seq<u8>, ParseIdError> {
    parse_bytes(encode_utf8(text))
}

impl Id {
    /// The tag held in the last two bytes.
    pub closed spec fn spec_kind(self) -> Kind {
        Kind([self.0[10], self.0[11]])
    }

    /// The text form: sixteen symbols of the URL-safe base64 alphabet.
    pub open spec fn text(self) -> Seq<char> {
        as_chars(encoded(self@))
    }

    pub proof fn lemma_view(self)
        ensures
            self@.len() == 12,
            self.spec_kind()@ == self@.subrange(10, 12),
    {
        assert(self.spec_kind()@ =~= self@.subrange(10, 12));
    }

    /// Two identifiers with the same bytes are the same.
    pub proof fn lemma_view_injective(self, other: Id)
        requires
            self@ == other@,
        ensures
            self == other,
    {
        assert(self.0 =~= other.0);
    }

    /// Makes the identifier with the given creation time, random bytes and
    /// tag.
    pub fn from_parts(secs: u64, random: [u8; 6], kind: Kind) -> (r: Id)
        ensures
            r@ == layout(secs, random@, kind@),
            r.spec_kind() == kind,
    {
        let s0: u8 = ((secs >> 32) & 0xff) as u8;
        let s1: u8 = ((secs >> 24) & 0xff) as u8;
        let s2: u8 = ((secs >> 16) & 0xff) as u8;
        let s3: u8 = ((secs >> 8) & 0xff) as u8;
        let s4: u8 = (secs & 0xff) as u8;
        let r = Id(
            [
                s0,
                s1,
                s2,
                s3,
                s4,
                random[0],
                random[1],
                random[2],
                random[3],
                random[4],
                kind.0[0],
                kind.0[1],
            ],
        );
        proof {
            assert(r@ =~= layout(secs, random@, kind@));
            assert(r.spec_kind().0 =~= kind.0);
        }
        r
    }

    /// Makes a fresh identifier for `kind` from the clock and the
    /// operating system's random numbers. Whatever they give, the
    /// identifier carries `kind`. Where the clock stands before 1970 the
    /// seconds are 0, and where the operating system gives no random
    /// numbers the random bytes are 0.
    pub fn new(kind: Kind) -> (r: Id)
        ensures
            r.spec_kind() == kind,
    {
        let now = SystemTime::now();
        let secs: u64 = match since_epoch(&now) {
            Ok(elapsed) => elapsed.as_secs(),
            Err(_) => 0,
        };
        let random: [u8; 6] = match random_bytes() {
            Some(bytes) => bytes,
            None => [0, 0, 0, 0, 0, 0],
        };
        Id::from_parts(secs, random, kind)
    }

    /// The tag of the schema that the identifier belongs to.
    pub fn kind(&self) -> (r: Kind)
        ensures
            r == self.spec_kind(),
    {
        Kind([self.0[10], self.0[11]])
    }

    /// The text form of the identifier.
    pub fn to_b64(&self) -> (r: String)
        ensures
            r@ == self.text(),
    {
        encode_url_safe(&self.0)
    }

    /// Reads an identifier from the bytes of its text form.
    pub fn parse_b64(b64: &[u8]) -> (r: Result<Id, ParseIdError>)
        ensures
            match r {
                Ok(id) => parse_bytes(b64@) == Ok::<Seq<u8>, ParseIdError>(id@),
                Err(e) => parse_bytes(b64@) == Err::<Seq<u8>, ParseIdError>(e),
            },
    {
        if b64.len() != 16 {
            return Err(ParseIdError::InvalidLength(b64.len()));
        }
        match decode_url_safe(b64) {
            Ok(bytes) => Ok(Id(bytes)),
            Err(e) => Err(e),
        }
    }

    pub fn from_bytes(bytes: [u8; 12]) -> (r: Id)
        ensures
            r@ == bytes@,
    {
        Id(bytes)
    }

    pub fn into_bytes(self) -> (r: [u8; 12])
        ensures
            r@ == self@,
    {
        self.0
    }

    pub fn as_slice(&self) -> (r: &[u8])
        ensures
            r@ == self@,
    {
        self.0.as_slice()
    }
}

/// The UTF-8 bytes of the text form are the encoded bytes themselves.
pub proof fn lemma_text_bytes(id: Id)
    ensures
        encode_utf8(id.text()) == encoded(id@),
{
    id.lemma_view();
    lemma_decode_encode(id@);
    let text = encoded(id@);
    let chars = id.text();
    assert forall|i: int| 0 <= i < chars.len() implies '\0' <= #[trigger] chars[i] <= '\u{7f}' by {
        assert(text[i] < 128);
    }
    assert(is_ascii_chars(chars));
    is_ascii_chars_encode_utf8(chars);
    assert forall|i: int| 0 <= i < text.len() implies encode_utf8(chars)[i] == text[i] by {
        assert(text[i] < 128);
        assert(chars[i] as u8 == text[i]);
    }
    assert(encode_utf8(chars) =~= text);
}

/// Parsing the text form of an identifier gives the bytes of the
/// identifier back.
pub proof fn lemma_parse_text(id: Id)
    ensures
        parse_spec(id.text()) == Ok::<Seq<u8>, ParseIdError>(id@),
{
    id.lemma_view();
    lemma_text_bytes(id);
    lemma_decode_encode(id@);
}

/// An identifier that is read from the text form of an identifier is
/// that identifier, and has its tag.
pub proof fn lemma_round_trip(id: Id, back: Id)
    requires
        parse_spec(id.text()) == Ok::<Seq<u8>, ParseIdError>(back@),
    ensures
        back == id,
        back.spec_kind() == id.spec_kind(),
{
    lemma_parse_text(id);
    back.lemma_view_injective(id);
}

impl Id {
    /// The identifier as a JSON value: the string of its text form.
    pub fn to_value(&self) -> (r: Value)
        ensures
            r@ == Json::String(self.text()),
    {
        Value::String(self.to_b64())
    }
}

impl From<Id> for Value {
    fn from(id: Id) -> (r: Value) {
        id.to_value()
    }
}

impl vstd::std_specs::convert::FromSpecImpl<Id> for Value {
    open spec fn obeys_from_spec() -> bool {
        false
    }

    open spec fn from_spec(id: Id) -> Value {
        arbitrary()
    }
}

impl std::str::FromStr for Id {
    type Err = ParseIdError;

    /// Reads an identifier from its text form, as [`Id::parse_b64`] does.
    fn from_str(s: &str) -> (r: Result<Id, ParseIdError>)
        ensures
            match r {
                Ok(id) => parse_spec(s@) == Ok::<Seq<u8>, ParseIdError>(id@),
                Err(e) => parse_spec(s@) == Err::<Seq<u8>, ParseIdError>(e),
            },
    {
        Id::parse_b64(s.as_bytes())
    }
}

} // verus!
