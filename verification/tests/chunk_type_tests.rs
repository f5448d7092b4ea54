use pngme::chunk_type::{is_letter_byte, ChunkType, ChunkTypeError};
use std::str::FromStr;

#[test]
fn chunk_type_from_bytes() {
    let expected = [82, 117, 83, 116];
    let actual = ChunkType::try_from([82, 117, 83, 116]).unwrap();
    assert_eq!(expected, actual.bytes());
}

#[test]
fn chunk_type_from_str() {
    let expected = ChunkType::try_from([82, 117, 83, 116]).unwrap();
    let actual = ChunkType::from_str("RuSt").unwrap();
    assert_eq!(expected, actual);
    assert_eq!(actual.bytes(), *b"RuSt");
}

#[test]
fn chunk_type_parses_through_the_trait() {
    let parsed: ChunkType = "RuSt".parse().unwrap();
    assert_eq!(parsed.bytes(), [82, 117, 83, 116]);
    let failed: Result<ChunkType, ChunkTypeError> = "Ru1t".parse();
    assert_eq!(failed, Err(ChunkTypeError::InvalidChunkType));
}

#[test]
fn validity_table() {
    // Four letters, third upper case: valid for new chunks.
    let rust = ChunkType::from_str("RuSt").unwrap();
    assert!(rust.is_reserved_bit_valid());
    assert!(rust.is_valid());
    let upper = ChunkType::from_str("RUST").unwrap();
    assert!(upper.is_valid());
    // Four letters, third lower case: a chunk type, but not a valid one.
    let lower_third = ChunkType::from_str("Rust").unwrap();
    assert!(!lower_third.is_reserved_bit_valid());
    assert!(!lower_third.is_valid());
    // A digit: no chunk type at all.
    assert_eq!(
        ChunkType::from_str("Ru1t"),
        Err(ChunkTypeError::InvalidChunkType)
    );
}

#[test]
fn critical_is_upper_case_first_letter() {
    assert!(ChunkType::from_str("RuSt").unwrap().is_critical());
    assert!(!ChunkType::from_str("ruSt").unwrap().is_critical());
}

#[test]
fn public_is_upper_case_second_letter() {
    assert!(!ChunkType::from_str("RuSt").unwrap().is_public());
    assert!(ChunkType::from_str("RUSt").unwrap().is_public());
}

#[test]
fn reserved_bit_is_upper_case_third_letter() {
    assert!(ChunkType::from_str("RuSt").unwrap().is_reserved_bit_valid());
    assert!(!ChunkType::from_str("Rust").unwrap().is_reserved_bit_valid());
}

#[test]
fn safe_to_copy_is_lower_case_fourth_letter() {
    assert!(ChunkType::from_str("RuSt").unwrap().is_safe_to_copy());
    assert!(!ChunkType::from_str("RuST").unwrap().is_safe_to_copy());
}

#[test]
fn flags_of_every_case_pattern() {
    for pattern in 0u8..16 {
        let mut bytes = *b"abcd";
        for i in 0..4 {
            if pattern & (1 << i) != 0 {
                bytes[i] = bytes[i].to_ascii_uppercase();
            }
        }
        let t = ChunkType::try_from(bytes).unwrap();
        assert_eq!(t.is_critical(), pattern & 1 != 0);
        assert_eq!(t.is_public(), pattern & 2 != 0);
        assert_eq!(t.is_reserved_bit_valid(), pattern & 4 != 0);
        assert_eq!(t.is_safe_to_copy(), pattern & 8 == 0);
        assert_eq!(t.is_valid(), pattern & 4 != 0);
        assert_eq!(t.bytes(), bytes);
    }
}

#[test]
fn text_of_wrong_length_is_no_chunk_type() {
    for text in ["", "R", "Ru", "RuS", "RuStx", "RuStRuSt"] {
        assert_eq!(
            ChunkType::from_str(text),
            Err(ChunkTypeError::InvalidChunkType)
        );
    }
}

#[test]
fn text_with_non_letters_is_no_chunk_type() {
    for text in ["Ru1t", "RuS ", "@uSt", "[uSt", "`uSt", "{uSt", "Ru\u{e9}", "\u{1f980}"] {
        assert_eq!(
            ChunkType::from_str(text),
            Err(ChunkTypeError::InvalidChunkType)
        );
    }
}

#[test]
fn bytes_next_to_the_letters_are_refused() {
    for b in [0x40u8, 0x5b, 0x60, 0x7b, 0x00, 0x80, 0xff, b'0', b'9'] {
        assert!(!is_letter_byte(b));
        assert_eq!(
            ChunkType::try_from([b'R', b'u', b, b't']),
            Err(ChunkTypeError::InvalidChunkType)
        );
    }
    for b in [b'A', b'Z', b'a', b'z', b'M', b'm'] {
        assert!(is_letter_byte(b));
        assert_eq!(ChunkType::try_from([b, b, b, b]).unwrap().bytes(), [b; 4]);
    }
}

#[test]
fn every_byte_is_classed_as_std_does() {
    for b in 0u8..=255 {
        assert_eq!(is_letter_byte(b), b.is_ascii_alphabetic());
    }
}

#[test]
fn chunk_type_string() {
    let chunk = ChunkType::from_str("RuSt").unwrap();
    assert_eq!(chunk.to_string(), "RuSt");
    assert_eq!(ChunkType::from_str("IEND").unwrap().to_string(), "IEND");
    assert_eq!(ChunkType::from_str("zzzz").unwrap().to_string(), "zzzz");
}

#[test]
fn chunk_type_equality_is_bytewise() {
    let a = ChunkType::from_str("RuSt").unwrap();
    let b = ChunkType::try_from(*b"RuSt").unwrap();
    assert_eq!(a, b);
    assert_ne!(a, ChunkType::from_str("ruSt").unwrap());
    assert_ne!(a, ChunkType::from_str("RUSt").unwrap());
    assert_ne!(a, ChunkType::from_str("Rust").unwrap());
    assert_ne!(a, ChunkType::from_str("RuST").unwrap());
}
