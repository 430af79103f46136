use png_container::checksum::chunk_checksum;
use png_container::chunk::{
    check_chunk, file_header_is_valid, parse_next_header, tag_code, IDAT, IEND, IHDR, PLTE,
};
use png_container::error::PngError;

const SIGNATURE: [u8; 8] = [0x89, 0x50, 0x4E, 0x47, 0x0D, 0x0A, 0x1A, 0x0A];

fn chunk(tag: &[u8; 4], data: &[u8]) -> Vec<u8> {
    let mut bytes = Vec::new();
    bytes.extend_from_slice(&(data.len() as u32).to_be_bytes());
    bytes.extend_from_slice(tag);
    bytes.extend_from_slice(data);
    bytes.extend_from_slice(&chunk_checksum(tag, data).to_be_bytes());
    bytes
}

#[test]
fn signature_is_accepted() {
    assert!(file_header_is_valid(&SIGNATURE));
}

#[test]
fn signature_with_bytes_behind_it_is_accepted() {
    let mut bytes = SIGNATURE.to_vec();
    bytes.extend_from_slice(&[0, 0, 0, 0, 1, 2, 3]);
    assert!(file_header_is_valid(&bytes));
}

#[test]
fn any_single_deviating_byte_is_rejected() {
    for place in 0..8 {
        for bit in 0..8 {
            let mut bytes = SIGNATURE.to_vec();
            bytes[place] ^= 1 << bit;
            bytes.extend_from_slice(&chunk(b"IEND", &[]));
            assert!(!file_header_is_valid(&bytes));
        }
    }
}

#[test]
fn short_signature_is_rejected() {
    for len in 0..8 {
        assert!(!file_header_is_valid(&SIGNATURE[..len]));
    }
}

#[test]
fn tag_codes() {
    assert_eq!(tag_code("IHDR"), Some(IHDR));
    assert_eq!(tag_code("PLTE"), Some(PLTE));
    assert_eq!(tag_code("IDAT"), Some(IDAT));
    assert_eq!(tag_code("IEND"), Some(IEND));
    assert_eq!(tag_code("tEXt"), Some(0x7445_5874));
    assert_eq!(IHDR, 0x4948_4452);
}

#[test]
fn tag_code_wants_four_bytes() {
    assert_eq!(tag_code(""), None);
    assert_eq!(tag_code("IDA"), None);
    assert_eq!(tag_code("IDATA"), None);
    assert_eq!(tag_code("\u{e9}\u{e9}"), Some(0xc3a9_c3a9));
}

#[test]
fn reads_a_chunk_and_moves_behind_it() {
    let bytes = chunk(b"tEXt", b"hello");
    let mut offset = 0;
    let found = parse_next_header(&bytes, &mut offset);
    assert_eq!(found, Ok(Some(("tEXt".to_string(), b"hello".to_vec()))));
    assert_eq!(offset, 17);
}

#[test]
fn reads_a_known_chunk() {
    let bytes = [0, 0, 0, 3, 0x50, 0x4c, 0x54, 0x45, 1, 2, 3, 0x0d, 0x87, 0x64, 0xd5];
    let mut offset = 0;
    let found = parse_next_header(&bytes, &mut offset);
    assert_eq!(found, Ok(Some(("PLTE".to_string(), vec![1, 2, 3]))));
    assert_eq!(offset, 15);
}

#[test]
fn reads_chunks_one_after_the_other() {
    let mut bytes = vec![0xaa, 0xbb];
    bytes.extend_from_slice(&chunk(b"abcd", &[1]));
    bytes.extend_from_slice(&chunk(b"efgh", &[]));
    bytes.extend_from_slice(&chunk(b"IEND", &[]));
    let mut offset = 2;
    assert_eq!(
        parse_next_header(&bytes, &mut offset),
        Ok(Some(("abcd".to_string(), vec![1])))
    );
    assert_eq!(offset, 15);
    assert_eq!(
        parse_next_header(&bytes, &mut offset),
        Ok(Some(("efgh".to_string(), vec![])))
    );
    assert_eq!(offset, 27);
    assert_eq!(parse_next_header(&bytes, &mut offset), Ok(None));
    assert_eq!(offset, 31);
}

#[test]
fn terminal_tag_ends_the_stream_without_its_checksum() {
    let bytes = [0, 0, 0, 0, b'I', b'E', b'N', b'D'];
    let mut offset = 0;
    assert_eq!(parse_next_header(&bytes, &mut offset), Ok(None));
    assert_eq!(offset, 4);
}

#[test]
fn terminal_tag_is_not_checked_against_its_length_or_checksum() {
    let bytes = [0xff, 0xff, 0xff, 0xff, b'I', b'E', b'N', b'D', 1, 2, 3, 4, 5];
    let mut offset = 0;
    assert_eq!(parse_next_header(&bytes, &mut offset), Ok(None));
    assert_eq!(offset, 4);
}

#[test]
fn missing_length_is_truncated() {
    for len in 0..4 {
        let bytes = vec![0u8; len];
        let mut offset = 0;
        assert_eq!(parse_next_header(&bytes, &mut offset), Err(PngError::Truncated));
        assert_eq!(offset, 0);
    }
}

#[test]
fn offset_behind_the_end_is_truncated() {
    let bytes = chunk(b"abcd", &[]);
    let mut offset = bytes.len() + 5;
    assert_eq!(parse_next_header(&bytes, &mut offset), Err(PngError::Truncated));
    assert_eq!(offset, bytes.len() + 5);
    let mut offset = usize::MAX;
    assert_eq!(parse_next_header(&bytes, &mut offset), Err(PngError::Truncated));
    assert_eq!(offset, usize::MAX);
}

#[test]
fn missing_tag_is_truncated() {
    for len in 4..8 {
        let bytes = &[0, 0, 0, 0, b'I', b'E', b'N', b'D'][..len];
        let mut offset = 0;
        assert_eq!(parse_next_header(bytes, &mut offset), Err(PngError::Truncated));
        assert_eq!(offset, 4);
    }
}

#[test]
fn tag_that_is_not_text_is_rejected() {
    let mut bytes = chunk(b"abcd", &[1, 2]);
    bytes[5] = 0xff;
    let mut offset = 0;
    assert_eq!(parse_next_header(&bytes, &mut offset), Err(PngError::NonTextTag));
    assert_eq!(offset, 4);
}

#[test]
fn tag_cut_in_the_middle_of_a_character_is_rejected() {
    let bytes = chunk(&[b'a', b'b', b'c', 0xc3], &[]);
    let mut offset = 0;
    assert_eq!(parse_next_header(&bytes, &mut offset), Err(PngError::NonTextTag));
}

#[test]
fn tag_of_text_beyond_ascii_is_read() {
    let tag = [0xc3, 0xa9, 0xc3, 0xa9];
    let bytes = chunk(&tag, &[5]);
    let mut offset = 0;
    assert_eq!(
        parse_next_header(&bytes, &mut offset),
        Ok(Some(("\u{e9}\u{e9}".to_string(), vec![5])))
    );
}

#[test]
fn short_payload_is_truncated() {
    let whole = chunk(b"abcd", &[1, 2, 3, 4, 5]);
    for len in 8..whole.len() {
        let mut offset = 0;
        assert_eq!(parse_next_header(&whole[..len], &mut offset), Err(PngError::Truncated));
        assert_eq!(offset, 8);
    }
}

#[test]
fn length_beyond_the_buffer_is_truncated() {
    let mut bytes = chunk(b"abcd", &[1, 2, 3]);
    bytes[0] = 0xff;
    let mut offset = 0;
    assert_eq!(parse_next_header(&bytes, &mut offset), Err(PngError::Truncated));
}

#[test]
fn wrong_checksum_is_reported_with_the_tag() {
    let mut bytes = chunk(b"tEXt", b"abc");
    let last = bytes.len() - 1;
    bytes[last] ^= 1;
    let mut offset = 0;
    assert_eq!(
        parse_next_header(&bytes, &mut offset),
        Err(PngError::CrcMismatch {
            tag: "tEXt".to_string(),
            stored: 0xfc85_9b88 ^ 1,
            computed: 0xfc85_9b88,
        })
    );
    assert_eq!(offset, bytes.len());
}

#[test]
fn checksum_round_trip() {
    let payloads: [&[u8]; 4] = [&[], &[0], &[1, 2, 3, 4, 5, 6, 7], &[0xff; 300]];
    let tags: [&[u8; 4]; 4] = [b"IHDR", b"IDAT", b"zTXt", b"    "];
    for data in payloads {
        for tag in tags {
            let bytes = chunk(tag, data);
            let mut offset = 0;
            let found = parse_next_header(&bytes, &mut offset);
            let text = String::from_utf8(tag.to_vec()).unwrap();
            assert_eq!(found, Ok(Some((text, data.to_vec()))));
            assert_eq!(offset, bytes.len());
        }
    }
}

#[test]
fn any_flipped_payload_bit_is_an_integrity_failure() {
    let data = [0x00, 0x5a, 0xff, 0x10, 0x80];
    let good = chunk(b"IDAT", &data);
    for place in 0..data.len() {
        for bit in 0..8 {
            let mut bytes = good.clone();
            bytes[8 + place] ^= 1 << bit;
            let mut offset = 0;
            let found = parse_next_header(&bytes, &mut offset);
            assert!(matches!(
                found,
                Err(PngError::CrcMismatch { ref tag, .. }) if tag == "IDAT"
            ));
        }
    }
}

#[test]
fn any_flipped_tag_bit_is_a_failure_that_names_the_tag() {
    let good = chunk(b"IDAT", &[1, 2, 3]);
    for place in 0..4 {
        for bit in 0..7 {
            let mut bytes = good.clone();
            bytes[4 + place] ^= 1 << bit;
            let altered = String::from_utf8(bytes[4..8].to_vec()).unwrap();
            let mut offset = 0;
            let found = parse_next_header(&bytes, &mut offset);
            assert!(matches!(
                found,
                Err(PngError::CrcMismatch { ref tag, .. }) if *tag == altered
            ));
        }
        let mut bytes = good.clone();
        bytes[4 + place] ^= 0x80;
        let mut offset = 0;
        assert_eq!(parse_next_header(&bytes, &mut offset), Err(PngError::NonTextTag));
    }
}

#[test]
fn flipped_bit_that_makes_the_terminal_tag_ends_the_stream() {
    let mut bytes = chunk(b"IENE", &[1, 2, 3]);
    bytes[7] ^= 1;
    let mut offset = 0;
    assert_eq!(parse_next_header(&bytes, &mut offset), Ok(None));
}

#[test]
fn flipped_checksum_bit_is_an_integrity_failure() {
    let good = chunk(b"abcd", &[9, 8, 7]);
    for place in 0..4 {
        for bit in 0..8 {
            let mut bytes = good.clone();
            bytes[11 + place] ^= 1 << bit;
            let mut offset = 0;
            let found = parse_next_header(&bytes, &mut offset);
            assert!(matches!(
                found,
                Err(PngError::CrcMismatch { ref tag, .. }) if tag == "abcd"
            ));
        }
    }
}

#[test]
fn bytes_behind_a_chunk_do_not_change_it() {
    let bytes = chunk(b"abcd", &[1, 2, 3]);
    let mut longer = bytes.clone();
    longer.extend_from_slice(&[0xde, 0xad, 0xbe, 0xef, 0x00]);
    let mut first = 0;
    let mut second = 0;
    assert_eq!(
        parse_next_header(&bytes, &mut first),
        parse_next_header(&longer, &mut second)
    );
    assert_eq!(first, second);
}

#[test]
fn equal_checksums_hand_the_chunk_on() {
    let checked = check_chunk("tEXt".to_string(), vec![1, 2], 0x1234_5678, 0x1234_5678);
    assert_eq!(checked, Ok(("tEXt".to_string(), vec![1, 2])));
}

#[test]
fn different_checksums_are_reported_with_the_tag() {
    let checked = check_chunk("tEXt".to_string(), vec![1, 2], 0x1234_5678, 0x1234_5679);
    assert_eq!(
        checked,
        Err(PngError::CrcMismatch {
            tag: "tEXt".to_string(),
            stored: 0x1234_5678,
            computed: 0x1234_5679,
        })
    );
}
