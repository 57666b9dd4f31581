use database::types::id::{Id, Kind, ParseIdError};

#[test]
fn kind() {
    let kind = Kind::new(true, 0x7FFF);
    assert_eq!(kind.is_component(), true);
    assert_eq!(kind.kind(), 0x7FFF);

    let kind = Kind::new(false, 0x7FFF);
    assert_eq!(kind.is_component(), false);
    assert_eq!(kind.kind(), 0x7FFF);
}

#[test]
fn id() {
    let kind = Kind::new(true, 0x7FFF);
    let id = Id::new(kind);
    assert_eq!(id.kind(), kind);
}

#[test]
fn b64() {
    let kind = Kind::new(true, 0x7FFF);
    let id = Id::new(kind);
    let b64 = id.to_b64();
    let id2 = Id::parse_b64(b64.as_bytes()).unwrap();
    assert_eq!(id, id2);
}

// check max length of b64 parse
#[test]
fn b64_max() {
    let input = "aHR0cHM6Ly9naXRZ";
    let id = Id::parse_b64(input.as_bytes()).unwrap();
    assert_eq!(id.to_b64(), input);
}

#[test]
fn kind_packs_every_number_and_bit() {
    for value in [0u16, 1, 0x7F, 0x80, 0xFF, 0x100, 0x1234, 0x7FFE, 0x7FFF] {
        for component in [false, true] {
            let kind = Kind::new(component, value);
            assert_eq!(kind.is_component(), component);
            assert_eq!(kind.kind(), value);
        }
    }
}

#[test]
fn id_layout_is_seconds_random_kind() {
    let kind = Kind::new(true, 0x0102);
    let id = Id::from_parts(0x0A0B_0C0D_0E0F_1011, [1, 2, 3, 4, 5, 6], kind);
    assert_eq!(
        id.into_bytes(),
        [0x0D, 0x0E, 0x0F, 0x10, 0x11, 1, 2, 3, 4, 5, 0x81, 0x02]
    );
    assert_eq!(id.kind(), kind);
    assert_eq!(id.as_slice(), &[0x0D, 0x0E, 0x0F, 0x10, 0x11, 1, 2, 3, 4, 5, 0x81, 0x02]);
}

#[test]
fn text_form_is_url_safe_base64() {
    let id = Id::from_bytes([0xFB, 0xFF, 0xBF, 0, 0, 0, 0x68, 0x74, 0x74, 0x70, 0x73, 0x3A]);
    assert_eq!(id.to_b64(), "-_-_AAAAaHR0cHM6");
    assert_eq!(Id::parse_b64(b"-_-_AAAAaHR0cHM6"), Ok(id));
}

#[test]
fn round_trip_of_fresh_ids() {
    for value in [0u16, 7, 0x7FFF] {
        let kind = Kind::new(false, value);
        let id = Id::new(kind);
        let back = Id::parse_b64(id.to_b64().as_bytes()).unwrap();
        assert_eq!(back, id);
        assert_eq!(back.kind(), kind);
    }
}

#[test]
fn parse_rejects_wrong_length() {
    assert_eq!(Id::parse_b64(b""), Err(ParseIdError::InvalidLength(0)));
    assert_eq!(Id::parse_b64(b"aHR0cHM6Ly9naXR"), Err(ParseIdError::InvalidLength(15)));
    assert_eq!(Id::parse_b64(b"aHR0cHM6Ly9naXRZa"), Err(ParseIdError::InvalidLength(17)));
    assert_eq!(Id::parse_b64(&[0xFF; 3]), Err(ParseIdError::InvalidLength(3)));
    // eight characters of two bytes each
    assert_eq!(
        Id::parse_b64("éééééééé".as_bytes()),
        Err(ParseIdError::InvalidByte(0, 0xC3))
    );
}

#[test]
fn parse_rejects_foreign_symbols() {
    assert_eq!(Id::parse_b64(b"aHR0cHM6Ly9naXR+"), Err(ParseIdError::InvalidByte(15, b'+')));
    assert_eq!(Id::parse_b64(b"aHR0cHM6Ly9naXR/"), Err(ParseIdError::InvalidByte(15, b'/')));
    assert_eq!(Id::parse_b64(b"aHR0cHM6Ly9naX=="), Err(ParseIdError::InvalidPadding));
    assert_eq!(Id::parse_b64(b"aHR0cHM6Ly9naXR="), Err(ParseIdError::InvalidPadding));
    assert_eq!(Id::parse_b64(b"aHR0cHM6Ly9naX=Z"), Err(ParseIdError::InvalidByte(14, b'=')));
    assert_eq!(Id::parse_b64(b"aHR0cHM6Ly9naX=+"), Err(ParseIdError::InvalidByte(14, b'=')));
    assert_eq!(Id::parse_b64(b"aHR0cHM6Ly9naX+="), Err(ParseIdError::InvalidByte(14, b'+')));
    assert_eq!(Id::parse_b64(b"aHR0cHM6Ly9na==="), Err(ParseIdError::InvalidByte(13, b'=')));
    assert_eq!(Id::parse_b64(b"aHR0cHM6Ly9n===="), Err(ParseIdError::InvalidByte(12, b'=')));
    assert_eq!(Id::parse_b64(b"aHR0 HM6Ly9naXRZ"), Err(ParseIdError::InvalidByte(4, b' ')));
    assert_eq!(Id::parse_b64(b"=HR0cHM6Ly9naXR="), Err(ParseIdError::InvalidByte(0, b'=')));
}

fn is_symbol(b: u8) -> bool {
    b.is_ascii_alphanumeric() || b == b'-' || b == b'_'
}

/// The rule by which a text of sixteen bytes is refused.
fn refusal(text: &[u8; 16]) -> Option<ParseIdError> {
    let at = text.iter().position(|b| !is_symbol(*b))?;
    if at >= 14 && text[at] == b'=' && (at == 15 || text[15] == b'=') {
        Some(ParseIdError::InvalidPadding)
    } else {
        Some(ParseIdError::InvalidByte(at, text[at]))
    }
}

fn agrees(text: &[u8; 16]) {
    match (Id::parse_b64(text), refusal(text)) {
        (Ok(id), None) => assert_eq!(id.to_b64().as_bytes(), text),
        (Err(e), Some(expected)) => assert_eq!(e, expected, "{:?}", text),
        (got, expected) => panic!("{:?}: {:?} but {:?}", text, got, expected),
    }
}

#[test]
fn every_byte_in_every_place_is_refused_by_the_rule() {
    let base = *b"aHR0cHM6Ly9naXRZ";
    for at in 0..16 {
        for b in 0..=255u8 {
            let mut text = base;
            text[at] = b;
            agrees(&text);
        }
    }
}

#[test]
fn every_ending_is_refused_by_the_rule() {
    let base = *b"aHR0cHM6Ly9naXRZ";
    for a in 0..=255u8 {
        for b in 0..=255u8 {
            let mut text = base;
            text[14] = a;
            text[15] = b;
            agrees(&text);
        }
    }
}

#[test]
fn two_foreign_bytes_are_refused_for_the_first() {
    let base = *b"aHR0cHM6Ly9naXRZ";
    let foreign = [b'=', b'+', b'/', b' ', 0u8, 0xFF, b'A'];
    for first in 0..16 {
        for second in 0..16 {
            for x in foreign {
                for y in foreign {
                    let mut text = base;
                    text[first] = x;
                    text[second] = y;
                    agrees(&text);
                }
            }
        }
    }
}

#[test]
fn id_as_value_and_from_str() {
    let id = Id::from_bytes([0xFB, 0xFF, 0xBF, 0, 0, 0, 0x68, 0x74, 0x74, 0x70, 0x73, 0x3A]);
    assert_eq!(
        database::types::value::Value::from(id),
        database::types::value::Value::String("-_-_AAAAaHR0cHM6".to_string())
    );
    assert_eq!("-_-_AAAAaHR0cHM6".parse::<Id>(), Ok(id));
    assert_eq!("x".parse::<Id>(), Err(ParseIdError::InvalidLength(1)));
}

#[test]
fn kind_refuses_numbers_with_the_top_bit() {
    assert_eq!(Kind::checked_new(true, 0x7FFF), Some(Kind::new(true, 0x7FFF)));
    assert_eq!(Kind::checked_new(false, 0), Some(Kind::new(false, 0)));
    assert_eq!(Kind::checked_new(false, 0x8000), None);
    assert_eq!(Kind::checked_new(true, 0x8000), None);
    assert_eq!(Kind::checked_new(true, u16::MAX), None);
}
