use pngme::chunk::Chunk;
use pngme::chunk_type::ChunkType;
use pngme::commands::{
    append_message, chunk_message, decode_message, filtering, is_standard, listing,
    remove_message, ChunkMessage, EncodeError, IDAT, IEND, IHDR,
};
use pngme::png::{Png, PngError};
use std::str::FromStr;

fn chunk(chunk_type: &str, data: &[u8]) -> Chunk {
    Chunk::new(ChunkType::from_str(chunk_type).unwrap(), data.to_vec())
}

fn image() -> Png {
    Png::from_chunks(vec![
        chunk("IHDR", &[0, 0, 0, 1, 0, 0, 0, 1, 8, 6, 0, 0, 0]),
        chunk("ruSt", b"a message"),
        chunk("IDAT", b"pixels"),
        chunk("emPt", b""),
        chunk("biNa", &[0xff, 0x00, 0xfe]),
        chunk("blNk", b"  \n"),
        chunk("IEND", b""),
    ])
}

#[test]
fn filtering_admits_text_chunks_that_are_not_standard() {
    assert!(filtering(&&chunk("ruSt", b"a message")));
    assert!(filtering(&&chunk("RuSt", b"x")));
    // Blank text is still text.
    assert!(filtering(&&chunk("blNk", b"  \n")));
}

#[test]
fn filtering_leaves_out_chunks_without_data() {
    assert!(!filtering(&&chunk("ruSt", b"")));
}

#[test]
fn filtering_leaves_out_data_that_is_no_text() {
    assert!(!filtering(&&chunk("ruSt", &[0xff, 0x00, 0xfe])));
    assert!(!filtering(&&chunk("ruSt", &[0xe2, 0x82])));
}

#[test]
fn filtering_leaves_out_the_three_standard_chunks() {
    assert!(!filtering(&&chunk("IHDR", b"text")));
    assert!(!filtering(&&chunk("IDAT", b"text")));
    assert!(!filtering(&&chunk("IEND", b"text")));
    // Only these three, in this case.
    assert!(filtering(&&chunk("ihdr", b"text")));
    assert!(filtering(&&chunk("IDAt", b"text")));
    assert!(filtering(&&chunk("PLTE", b"text")));
    assert!(filtering(&&chunk("IHDT", b"text")));
}

#[test]
fn listing_without_filter_is_every_chunk_in_order() {
    let png = image();
    let shown = listing(&png, false);
    assert_eq!(shown.len(), 7);
    for (i, c) in shown.iter().enumerate() {
        assert_eq!(*c, &png.chunks()[i]);
    }
}

#[test]
fn listing_with_filter_is_the_admitted_chunks_in_order() {
    let png = image();
    let shown = listing(&png, true);
    let types: Vec<String> = shown.iter().map(|c| c.chunk_type().to_string()).collect();
    assert_eq!(types, ["ruSt", "blNk"]);
}

#[test]
fn listing_may_be_empty() {
    let png = Png::from_chunks(vec![chunk("IHDR", b"x"), chunk("IEND", b"")]);
    assert!(listing(&png, true).is_empty());
    assert_eq!(listing(&png, false).len(), 2);
    assert!(listing(&Png::from_chunks(Vec::new()), false).is_empty());
}

#[test]
fn chunk_message_tells_text_blank_and_binary_apart() {
    assert_eq!(
        chunk_message(&chunk("ruSt", b"a message")),
        ChunkMessage::Text(String::from("a message"))
    );
    assert_eq!(
        chunk_message(&chunk("ruSt", b"  padded ")),
        ChunkMessage::Text(String::from("  padded "))
    );
    assert_eq!(chunk_message(&chunk("ruSt", b"")), ChunkMessage::Blank);
    assert_eq!(chunk_message(&chunk("ruSt", b" \t\r\n")), ChunkMessage::Blank);
    assert_eq!(
        chunk_message(&chunk("ruSt", "\u{2003}".as_bytes())),
        ChunkMessage::Blank
    );
    assert_eq!(
        chunk_message(&chunk("ruSt", &[0xff, 0x20])),
        ChunkMessage::NotUtf8
    );
}

#[test]
fn append_message_adds_a_last_chunk() {
    let mut png = image();
    assert_eq!(append_message(&mut png, "teSt", "hidden"), Ok(()));
    assert_eq!(png.chunks().len(), 8);
    let last = &png.chunks()[7];
    assert_eq!(last, &chunk("teSt", b"hidden"));
    assert_eq!(last.length(), 6);
    assert_eq!(last.data_as_string().unwrap(), "hidden");
}

#[test]
fn append_message_takes_the_bytes_of_the_text() {
    let mut png = Png::from_chunks(Vec::new());
    assert_eq!(append_message(&mut png, "RuSt", "gr\u{fc}n"), Ok(()));
    assert_eq!(png.chunks()[0].length(), 5);
    assert_eq!(png.chunks()[0].data(), "gr\u{fc}n".as_bytes());
    assert_eq!(
        append_message(
            &mut png,
            "RuSt",
            "This is where your secret message will be!"
        ),
        Ok(())
    );
    assert_eq!(png.chunks()[1].length(), 42);
    assert_eq!(png.chunks()[1].crc(), 2882656334);
}

#[test]
fn append_message_refuses_a_lower_case_third_letter() {
    let mut png = image();
    let before = png.as_bytes();
    assert_eq!(
        append_message(&mut png, "test", "hidden"),
        Err(EncodeError::InvalidChunkType)
    );
    assert_eq!(
        append_message(&mut png, "Rust", "hidden"),
        Err(EncodeError::InvalidChunkType)
    );
    assert_eq!(png.as_bytes(), before);
}

#[test]
fn append_message_refuses_what_is_no_chunk_type() {
    let mut png = image();
    let before = png.as_bytes();
    for name in ["", "Ru1t", "RuS", "RuStx", "Ru t", "R\u{fc}S"] {
        assert_eq!(
            append_message(&mut png, name, "hidden"),
            Err(EncodeError::InvalidChunkType)
        );
    }
    assert_eq!(png.as_bytes(), before);
}

#[test]
fn decode_message_reads_the_first_chunk_of_the_type() {
    let mut png = image();
    png.append_chunk(chunk("ruSt", b"a later one"));
    assert_eq!(
        decode_message(&png, "ruSt"),
        Some(ChunkMessage::Text(String::from("a message")))
    );
    assert_eq!(decode_message(&png, "emPt"), Some(ChunkMessage::Blank));
    assert_eq!(decode_message(&png, "blNk"), Some(ChunkMessage::Blank));
    assert_eq!(decode_message(&png, "biNa"), Some(ChunkMessage::NotUtf8));
    assert_eq!(decode_message(&png, "noNe"), None);
    assert_eq!(decode_message(&png, "rust"), None);
}

#[test]
fn remove_message_takes_the_chunk_out() {
    let mut png = image();
    assert_eq!(
        remove_message(&mut png, "ruSt"),
        Ok(ChunkMessage::Text(String::from("a message")))
    );
    let types: Vec<String> = png
        .chunks()
        .iter()
        .map(|c| c.chunk_type().to_string())
        .collect();
    assert_eq!(types, ["IHDR", "IDAT", "emPt", "biNa", "blNk", "IEND"]);
    assert_eq!(remove_message(&mut png, "biNa"), Ok(ChunkMessage::NotUtf8));
    assert_eq!(png.chunks().len(), 5);
}

#[test]
fn remove_message_of_absent_type_changes_nothing() {
    let mut png = image();
    assert_eq!(remove_message(&mut png, "noNe"), Err(PngError::NotFound));
    assert_eq!(png, image());
}

#[test]
fn standard_types_are_ihdr_idat_iend() {
    assert_eq!(&IHDR, b"IHDR");
    assert_eq!(&IDAT, b"IDAT");
    assert_eq!(&IEND, b"IEND");
    for name in ["IHDR", "IDAT", "IEND"] {
        assert!(is_standard(&ChunkType::from_str(name).unwrap()));
    }
    for name in ["ihdr", "IHDr", "IDAt", "iEND", "PLTE", "tEXt", "RuSt", "IENE", "JEND"] {
        assert!(!is_standard(&ChunkType::from_str(name).unwrap()));
    }
}
