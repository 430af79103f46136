use png_container::bytes::read_u32_at;
use png_container::checksum::chunk_checksum;

#[test]
fn reads_big_endian_at_offset_zero() {
    assert_eq!(read_u32_at(&[0x00, 0x00, 0x01, 0x0b], 0), Some(267));
}

#[test]
fn reads_big_endian_in_the_middle() {
    let bytes = [0xff, 0x12, 0x34, 0x56, 0x78, 0xff];
    assert_eq!(read_u32_at(&bytes, 1), Some(0x1234_5678));
}

#[test]
fn reads_the_largest_value() {
    assert_eq!(read_u32_at(&[0xff, 0xff, 0xff, 0xff], 0), Some(u32::MAX));
}

#[test]
fn byte_order_matters() {
    assert_eq!(read_u32_at(&[0x01, 0x00, 0x00, 0x00], 0), Some(0x0100_0000));
    assert_eq!(read_u32_at(&[0x00, 0x00, 0x00, 0x01], 0), Some(1));
}

#[test]
fn reads_the_last_four_bytes() {
    let bytes = [9, 9, 0, 0, 0, 7];
    assert_eq!(read_u32_at(&bytes, 2), Some(7));
}

#[test]
fn three_bytes_left_is_not_enough() {
    let bytes = [0, 0, 0, 7, 1, 2, 3];
    assert_eq!(read_u32_at(&bytes, 4), None);
}

#[test]
fn empty_buffer_has_no_integer() {
    assert_eq!(read_u32_at(&[], 0), None);
}

#[test]
fn offset_behind_the_end_has_no_integer() {
    assert_eq!(read_u32_at(&[1, 2, 3, 4], 5), None);
    assert_eq!(read_u32_at(&[1, 2, 3, 4], usize::MAX), None);
}

#[test]
fn checksum_of_the_check_string() {
    assert_eq!(chunk_checksum(b"1234", b"56789"), 0xcbf4_3926);
    assert_eq!(chunk_checksum(b"", b"123456789"), 0xcbf4_3926);
    assert_eq!(chunk_checksum(b"123456789", b""), 0xcbf4_3926);
}

#[test]
fn checksum_of_nothing_is_zero() {
    assert_eq!(chunk_checksum(b"", b""), 0);
}

#[test]
fn checksum_of_the_terminal_chunk() {
    assert_eq!(chunk_checksum(b"IEND", b""), 0xae42_6082);
}

#[test]
fn checksum_covers_tag_and_payload() {
    assert_eq!(chunk_checksum(b"PLTE", &[1, 2, 3]), 0x0d87_64d5);
    assert_ne!(chunk_checksum(b"PLTE", &[1, 2, 3]), chunk_checksum(b"PLTE", &[1, 2, 2]));
    assert_ne!(chunk_checksum(b"PLTE", &[1, 2, 3]), chunk_checksum(b"PLTF", &[1, 2, 3]));
}
