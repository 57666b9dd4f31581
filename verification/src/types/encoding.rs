//! The URL-safe, unpadded base64 alphabet as a mathematical model, and the
//! calls that encode and decode twelve bytes with it.

use base64::engine::general_purpose::URL_SAFE_NO_PAD;
use base64::{DecodeError, Engine};
use vstd::prelude::*;

verus! {

/// The symbol that stands for the six bit number `v`.
pub open spec fn symbol(v: u8) -> u8 {
    if v < 26 {
        (v + 65) as u8
    } else if v < 52 {
        (v + 71) as u8
    } else if v < 62 {
        (v - 4) as u8
    } else if v == 62 {
        45
    } else {
        95
    }
}

/// Whether `c` is one of the 64 symbols: a letter, a digit, `-` or `_`.
pub open spec fn is_symbol(c: u8) -> bool {
    ||| 65 <= c <= 90
    ||| 97 <= c <= 122
    ||| 48 <= c <= 57
    ||| c == 45
    ||| c == 95
}

/// The six bit number that the symbol `c` stands for.
pub open spec fn symbol_value(c: u8) -> u8 {
    if 65 <= c <= 90 {
        (c - 65) as u8
    } else if 97 <= c <= 122 {
        (c - 71) as u8
    } else if 48 <= c <= 57 {
        (c + 4) as u8
    } else if c == 45 {
        62
    } else {
        63
    }
}

/// The `i`-th six bit number of `bytes`, three bytes making four numbers.
pub open spec fn sextet(bytes: Seq<u8>, i: int) -> u8 {
    let g = 3 * (i / 4);
    if i % 4 == 0 {
        bytes[g] >> 2
    } else if i % 4 == 1 {
        ((bytes[g] & 3) << 4) | (bytes[g + 1] >> 4)
    } else if i % 4 == 2 {
        ((bytes[g + 1] & 15) << 2) | (bytes[g + 2] >> 6)
    } else {
        bytes[g + 2] & 63
    }
}

/// The `j`-th byte that the six bit numbers `values` hold, four numbers
/// making three bytes.
pub open spec fn octet(values: Seq<u8>, j: int) -> u8 {
    let g = 4 * (j / 3);
    if j % 3 == 0 {
        (values[g] << 2) | (values[g + 1] >> 4)
    } else if j % 3 == 1 {
        ((values[g + 1] & 15) << 4) | (values[g + 2] >> 2)
    } else {
        ((values[g + 2] & 3) << 6) | values[g + 3]
    }
}

/// The text of `bytes`, whose length is a multiple of three: one symbol
/// for each six bits.
pub open spec fn encoded(bytes: Seq<u8>) -> Seq<u8> {
    Seq::new((bytes.len() / 3 * 4) as nat, |i: int| symbol(sextet(bytes, i)))
}

/// Whether every byte of `text` is a symbol.
pub open spec fn well_formed(text: Seq<u8>) -> bool {
    forall|i: int| 0 <= i < text.len() ==> is_symbol(#[trigger] text[i])
}

/// The bytes that `text` stands for, where its length is a multiple of
/// four and it is well formed.
pub open spec fn decoded(text: Seq<u8>) -> Seq<u8> {
    Seq::new(
        (text.len() / 4 * 3) as nat,
        |j: int| octet(text.map_values(|c: u8| symbol_value(c)), j),
    )
}

/// The characters whose codes are the bytes of `text`.
pub open spec fn as_chars(text: Seq<u8>) -> Seq<char> {
    Seq::new(text.len(), |i: int| text[i] as char)
}

/// Why a text is not the text form of twelve bytes.
#[derive(Debug, Clone, Copy, PartialEq, Eq, Structural)]
pub enum ParseIdError {
    /// The byte at the given place is no symbol of the alphabet.
    InvalidByte(usize, u8),
    /// The text does not have sixteen bytes; the number is its length.
    InvalidLength(usize),
    /// The last symbol, at the given place, holds bits that no byte takes.
    /// A text of sixteen bytes is never refused for this.
    InvalidLastSymbol(usize, u8),
    /// The text ends in padding, which the text form never has.
    InvalidPadding,
}

/// Whether `at` is the first place of `text` that holds no symbol.
pub open spec fn is_first_foreign(text: Seq<u8>, at: int) -> bool {
    &&& 0 <= at < text.len()
    &&& !is_symbol(text[at])
    &&& forall|i: int| 0 <= i < at ==> is_symbol(#[trigger] text[i])
}

/// The first place of `text` that holds no symbol, where there is one.
pub open spec fn first_foreign(text: Seq<u8>) -> int {
    choose|at: int| is_first_foreign(text, at)
}

/// Why a text of sixteen bytes that is not well formed is refused: for
/// the first byte that is no symbol, with its place. Only where that byte
/// is a `=` in the last place, or in the last place but one before
/// another `=`, the text is refused for its padding.
pub open spec fn refusal(text: Seq<u8>) -> ParseIdError {
    let at = first_foreign(text);
    if at >= 14 && text[at] == 61 && (at == 15 || text[15] == 61) {
        ParseIdError::InvalidPadding
    } else {
        ParseIdError::InvalidByte(at as usize, text[at])
    }
}

/// A text that is not well formed has a first place that holds no
/// symbol, and only one.
pub proof fn lemma_first_foreign(text: Seq<u8>, at: int)
    requires
        is_first_foreign(text, at),
    ensures
        first_foreign(text) == at,
        !well_formed(text),
{
    let chosen = first_foreign(text);
    assert(is_first_foreign(text, chosen));
    if chosen < at {
        assert(is_symbol(text[chosen]));
    } else if at < chosen {
        assert(is_symbol(text[at]));
    }
}

/// Calls `Engine::encode` of the base64 crate on the engine
/// `URL_SAFE_NO_PAD`. The contract claims that the sixteen characters
/// returned are the symbols of the URL-safe alphabet for the twelve bytes,
/// six bits each, most significant first, with no padding.
#[verifier::external_body]
pub(crate) fn encode_url_safe(bytes: &[u8; 12]) -> (text: String)
    ensures
        text@ == as_chars(encoded(bytes@)),
{
    URL_SAFE_NO_PAD.encode(bytes)
}

/// Calls `Engine::decode_slice_unchecked` of the base64 crate on the
/// engine `URL_SAFE_NO_PAD`, with sixteen bytes of text and room for
/// twelve bytes. The contract claims that the call succeeds exactly when
/// every byte of the text is a symbol of the URL-safe alphabet, and that
/// it then gives the twelve bytes that the symbols stand for. Else, it
/// claims, the engine reports the first byte that is no symbol with its
/// place, or the padding where [`refusal`] says so.
#[verifier::external_body]
pub(crate) fn decode_url_safe(text: &[u8]) -> (r: Result<[u8; 12], ParseIdError>)
    requires
        text@.len() == 16,
    ensures
        match r {
            Ok(bytes) => well_formed(text@) && bytes@ == decoded(text@),
            Err(e) => !well_formed(text@) && e == refusal(text@),
        },
{
    let mut bytes = [0u8; 12];
    match URL_SAFE_NO_PAD.decode_slice_unchecked(text, &mut bytes) {
        Ok(_) => Ok(bytes),
        Err(DecodeError::InvalidByte(at, byte)) => Err(ParseIdError::InvalidByte(at, byte)),
        Err(DecodeError::InvalidLength(len)) => Err(ParseIdError::InvalidLength(len)),
        Err(DecodeError::InvalidLastSymbol(at, byte)) => Err(ParseIdError::InvalidLastSymbol(at, byte)),
        Err(DecodeError::InvalidPadding) => Err(ParseIdError::InvalidPadding),
    }
}

/// Every six bit number has a symbol, and the symbol stands for it.
pub proof fn lemma_symbol_value(v: u8)
    requires
        v < 64,
    ensures
        is_symbol(symbol(v)),
        symbol(v) < 128,
        symbol_value(symbol(v)) == v,
{
}

/// Three bytes come back from the four six bit numbers made of them.
pub proof fn lemma_group(a: u8, b: u8, c: u8)
    ensures
        a >> 2 < 64,
        ((a & 3) << 4) | (b >> 4) < 64,
        ((b & 15) << 2) | (c >> 6) < 64,
        c & 63 < 64,
        ((a >> 2) << 2) | ((((a & 3) << 4) | (b >> 4)) >> 4) == a,
        (((((a & 3) << 4) | (b >> 4)) & 15) << 4) | ((((b & 15) << 2) | (c >> 6)) >> 2) == b,
        (((((b & 15) << 2) | (c >> 6)) & 3) << 6) | (c & 63) == c,
{
    assert(a >> 2 < 64) by (bit_vector);
    assert(((a & 3) << 4) | (b >> 4) < 64) by (bit_vector);
    assert(((b & 15) << 2) | (c >> 6) < 64) by (bit_vector);
    assert(c & 63 < 64) by (bit_vector);
    assert(((a >> 2) << 2) | ((((a & 3) << 4) | (b >> 4)) >> 4) == a) by (bit_vector);
    assert((((((a & 3) << 4) | (b >> 4)) & 15) << 4) | ((((b & 15) << 2) | (c >> 6)) >> 2) == b)
        by (bit_vector);
    assert((((((b & 15) << 2) | (c >> 6)) & 3) << 6) | (c & 63) == c) by (bit_vector);
}

/// Encoding gives well formed text of symbols below 128, and decoding
/// that text gives the bytes back.
pub proof fn lemma_decode_encode(bytes: Seq<u8>)
    requires
        bytes.len() % 3 == 0,
    ensures
        encoded(bytes).len() == bytes.len() / 3 * 4,
        well_formed(encoded(bytes)),
        forall|i: int| 0 <= i < encoded(bytes).len() ==> #[trigger] encoded(bytes)[i] < 128,
        decoded(encoded(bytes)) == bytes,
{
    let text = encoded(bytes);
    let values = text.map_values(|c: u8| symbol_value(c));
    assert forall|i: int| 0 <= i < text.len() implies is_symbol(#[trigger] text[i]) && text[i]
        < 128 && values[i] == sextet(bytes, i) by {
        let g = 3 * (i / 4);
        lemma_group(bytes[g], bytes[g + 1], bytes[g + 2]);
        lemma_symbol_value(sextet(bytes, i));
    }
    assert forall|j: int| 0 <= j < bytes.len() implies #[trigger] decoded(text)[j] == bytes[j] by {
        let q = j / 3;
        let g = 4 * q;
        lemma_group(bytes[3 * q], bytes[3 * q + 1], bytes[3 * q + 2]);
        assert(values[g] == sextet(bytes, g));
        assert(values[g + 1] == sextet(bytes, g + 1));
        assert(values[g + 2] == sextet(bytes, g + 2));
        assert(values[g + 3] == sextet(bytes, g + 3));
    }
    assert(decoded(text) =~= bytes);
}

} // verus!
