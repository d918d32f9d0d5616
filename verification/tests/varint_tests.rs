use sqlite_reader::errors::DbError;
use sqlite_reader::varint::{encode_varint, parse_varint};

#[test]
fn varint_round_trip_small_values() {
    for v in [0u64, 1, 2, 42, 126, 127] {
        let e = encode_varint(v);
        assert_eq!(e.len(), 1);
        assert_eq!(parse_varint(&e), Ok((v, e.len())));
    }
}

#[test]
fn varint_round_trip_multi_byte_values() {
    for v in [
        128u64,
        300,
        16383,
        16384,
        1 << 21,
        0xDEAD_BEEF,
        1 << 35,
        (1 << 56) - 1,
    ] {
        let e = encode_varint(v);
        assert!(e.len() <= 8);
        assert_eq!(parse_varint(&e), Ok((v, e.len())));
    }
}

#[test]
fn varint_round_trip_nine_byte_values() {
    for v in [1u64 << 56, u64::MAX, u64::MAX - 1, (1 << 60) + 7] {
        let e = encode_varint(v);
        assert_eq!(e.len(), 9);
        assert_eq!(parse_varint(&e), Ok((v, 9)));
    }
}

#[test]
fn varint_known_encodings() {
    assert_eq!(encode_varint(0), vec![0x00]);
    assert_eq!(encode_varint(127), vec![0x7F]);
    assert_eq!(encode_varint(128), vec![0x81, 0x00]);
    // 300 = 0b10_0101100: high group 2, low group 44.
    assert_eq!(encode_varint(300), vec![0x82, 0x2C]);
    assert_eq!(parse_varint(&[0x82, 0x2C]), Ok((300, 2)));
}

#[test]
fn varint_stops_at_first_terminator() {
    // Trailing bytes beyond the terminator are left alone.
    assert_eq!(parse_varint(&[0x07, 0xFF, 0xFF]), Ok((7, 1)));
    assert_eq!(parse_varint(&[0x81, 0x01, 0x55]), Ok((129, 2)));
}

#[test]
fn varint_ninth_byte_contributes_all_eight_bits() {
    let bytes = [0xFF, 0xFF, 0xFF, 0xFF, 0xFF, 0xFF, 0xFF, 0xFF, 0xFF];
    assert_eq!(parse_varint(&bytes), Ok((u64::MAX, 9)));
    // The ninth byte ends the varint even with its high bit set.
    let mut ten = bytes.to_vec();
    ten.push(0x01);
    assert_eq!(parse_varint(&ten), Ok((u64::MAX, 9)));
}

#[test]
fn varint_exhausted_input_is_malformed() {
    assert_eq!(parse_varint(&[]), Err(DbError::MalformedVarint));
    assert_eq!(parse_varint(&[0x80]), Err(DbError::MalformedVarint));
    assert_eq!(
        parse_varint(&[0x80, 0x80, 0x80]),
        Err(DbError::MalformedVarint)
    );
    let eight = [0x80u8; 8];
    assert_eq!(parse_varint(&eight), Err(DbError::MalformedVarint));
}
