use media_packet::varint::{read_varint32, read_varint64, write_varint};
use media_packet::wire::{
    read_delimited32, read_delimited64, skip_unknown_field, to_signed64, to_unsigned64,
    write_delimited,
};

fn written(v: u64) -> Vec<u8> {
    let mut out = Vec::new();
    write_varint(&mut out, v);
    out
}

#[test]
fn varint_known_encodings() {
    assert_eq!(written(0), vec![0x00]);
    assert_eq!(written(1), vec![0x01]);
    assert_eq!(written(127), vec![0x7f]);
    assert_eq!(written(128), vec![0x80, 0x01]);
    assert_eq!(written(150), vec![0x96, 0x01]);
    assert_eq!(written(300), vec![0xac, 0x02]);
    assert_eq!(written(16384), vec![0x80, 0x80, 0x01]);
    assert_eq!(written(u32::MAX as u64), vec![0xff, 0xff, 0xff, 0xff, 0x0f]);
    assert_eq!(
        written(u64::MAX),
        vec![0xff, 0xff, 0xff, 0xff, 0xff, 0xff, 0xff, 0xff, 0xff, 0x01]
    );
}

#[test]
fn varint_appends_to_what_is_there() {
    let mut out = vec![0xaa, 0xbb];
    write_varint(&mut out, 300);
    assert_eq!(out, vec![0xaa, 0xbb, 0xac, 0x02]);
}

#[test]
fn varint_round_trip() {
    let values = [
        0u64,
        1,
        127,
        128,
        255,
        256,
        16383,
        16384,
        1 << 21,
        (1 << 28) - 1,
        1 << 28,
        u32::MAX as u64,
        u32::MAX as u64 + 1,
        1 << 35,
        1 << 42,
        1 << 49,
        1 << 56,
        (1 << 63) - 1,
        1 << 63,
        u64::MAX - 1,
        u64::MAX,
    ];
    for v in values {
        let mut bytes = written(v);
        let len = bytes.len();
        bytes.push(0x55);
        assert_eq!(read_varint64(&bytes, 0), Some((v, len)), "{v}");
    }
}

#[test]
fn varint64_reads_at_a_position() {
    let bytes = [0xff, 0x96, 0x01, 0x07];
    assert_eq!(read_varint64(&bytes, 1), Some((150, 3)));
    assert_eq!(read_varint64(&bytes, 3), Some((7, 4)));
    assert_eq!(read_varint64(&bytes, 4), None);
}

#[test]
fn varint64_takes_padded_forms() {
    assert_eq!(read_varint64(&[0x80, 0x00], 0), Some((0, 2)));
    assert_eq!(read_varint64(&[0x81, 0x80, 0x80, 0x00], 0), Some((1, 4)));
    assert_eq!(
        read_varint64(&[0x80, 0x80, 0x80, 0x80, 0x80, 0x80, 0x80, 0x80, 0x80, 0x00], 0),
        Some((0, 10))
    );
}

#[test]
fn varint64_refuses_what_does_not_end() {
    assert_eq!(read_varint64(&[], 0), None);
    assert_eq!(read_varint64(&[0x80], 0), None);
    assert_eq!(read_varint64(&[0xff, 0xff, 0xff], 0), None);
}

#[test]
fn varint64_refuses_more_than_64_bits() {
    let ten = [0xff, 0xff, 0xff, 0xff, 0xff, 0xff, 0xff, 0xff, 0xff, 0x02];
    assert_eq!(read_varint64(&ten, 0), None);
    let ten_high = [0x80, 0x80, 0x80, 0x80, 0x80, 0x80, 0x80, 0x80, 0x80, 0x7f];
    assert_eq!(read_varint64(&ten_high, 0), None);
    let eleven = [0x80, 0x80, 0x80, 0x80, 0x80, 0x80, 0x80, 0x80, 0x80, 0x80, 0x00];
    assert_eq!(read_varint64(&eleven, 0), None);
}

#[test]
fn varint32_limits() {
    assert_eq!(read_varint32(&[0x96, 0x01], 0), Some((150, 2)));
    assert_eq!(
        read_varint32(&[0xff, 0xff, 0xff, 0xff, 0x0f], 0),
        Some((u32::MAX, 5))
    );
    assert_eq!(read_varint32(&[0xff, 0xff, 0xff, 0xff, 0x10], 0), None);
    assert_eq!(read_varint32(&[0x80, 0x80, 0x80, 0x80, 0x80, 0x00], 0), None);
    assert_eq!(read_varint32(&[0x80, 0x80, 0x80, 0x80, 0x00], 0), Some((0, 5)));
    assert_eq!(read_varint32(&[0x80], 0), None);
}

#[test]
fn signed_and_unsigned_bits() {
    assert_eq!(to_unsigned64(0), 0);
    assert_eq!(to_unsigned64(1000), 1000);
    assert_eq!(to_unsigned64(-1), u64::MAX);
    assert_eq!(to_unsigned64(i64::MIN), 1 << 63);
    assert_eq!(to_unsigned64(i64::MAX), (1 << 63) - 1);
    assert_eq!(to_signed64(u64::MAX), -1);
    assert_eq!(to_signed64(1 << 63), i64::MIN);
    assert_eq!(to_signed64((1 << 63) - 1), i64::MAX);
    for x in [0, 1, -1, 33000, -33000, i64::MIN, i64::MAX] {
        assert_eq!(to_signed64(to_unsigned64(x)), x);
        assert_eq!(to_unsigned64(x), x as u64);
    }
}

#[test]
fn delimited_payload() {
    let mut out = vec![0x1a];
    write_delimited(&mut out, &[1, 2, 3]);
    assert_eq!(out, vec![0x1a, 0x03, 1, 2, 3]);
    out.push(0x99);
    assert_eq!(read_delimited32(&out, 1), Some((2, 5)));
    assert_eq!(read_delimited64(&out, 1), Some((2, 5)));
}

#[test]
fn delimited_empty_payload() {
    assert_eq!(read_delimited32(&[0x00], 0), Some((1, 1)));
    assert_eq!(read_delimited64(&[0x00, 0x07], 0), Some((1, 1)));
}

#[test]
fn delimited_refuses_a_length_beyond_the_bytes() {
    assert_eq!(read_delimited32(&[0x03, 1, 2], 0), None);
    assert_eq!(read_delimited64(&[0x03, 1, 2], 0), None);
    assert_eq!(read_delimited32(&[0xff, 0xff, 0xff, 0xff, 0x0f, 1], 0), None);
    assert_eq!(
        read_delimited64(&[0xff, 0xff, 0xff, 0xff, 0xff, 0xff, 0xff, 0xff, 0xff, 0x01, 1], 0),
        None
    );
}

#[test]
fn delimited_length_width() {
    let long = [0x81, 0x80, 0x80, 0x80, 0x80, 0x00, 0x2a];
    assert_eq!(read_delimited32(&long, 0), None);
    assert_eq!(read_delimited64(&long, 0), Some((6, 7)));
}

#[test]
fn unknown_fields_are_stepped_over() {
    let bytes = [0x96, 0x01, 0xaa, 0xbb, 0xcc, 0xdd, 0xee, 0xff, 0x11, 0x22];
    assert_eq!(skip_unknown_field(&bytes, 0, (9 << 3) | 0), Some(2));
    assert_eq!(skip_unknown_field(&bytes, 0, (9 << 3) | 1), Some(8));
    assert_eq!(skip_unknown_field(&bytes, 2, (9 << 3) | 1), Some(10));
    assert_eq!(skip_unknown_field(&bytes, 3, (9 << 3) | 1), None);
    assert_eq!(skip_unknown_field(&bytes, 0, (9 << 3) | 5), Some(4));
    assert_eq!(skip_unknown_field(&bytes, 7, (9 << 3) | 5), None);
    assert_eq!(skip_unknown_field(&[0x02, 7, 8, 9], 0, (9 << 3) | 2), Some(3));
    assert_eq!(skip_unknown_field(&[0x04, 7, 8, 9], 0, (9 << 3) | 2), None);
}

#[test]
fn unknown_fields_with_bad_tags_are_refused() {
    let bytes = [0x00; 16];
    for wire_type in [3, 4, 6, 7] {
        assert_eq!(skip_unknown_field(&bytes, 0, (9 << 3) | wire_type), None);
    }
    for wire_type in 0..8 {
        assert_eq!(skip_unknown_field(&bytes, 0, wire_type), None);
    }
}
