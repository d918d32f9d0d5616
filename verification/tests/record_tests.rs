use sqlite_reader::errors::DbError;
use sqlite_reader::record::{decode_row, get_data_type, get_table_columns_data, ColumnDataType, Value};

fn rec_varint(v: u64) -> Vec<u8> {
    assert!(v < 1 << 14);
    if v < 128 {
        vec![v as u8]
    } else {
        vec![0x80 | (v >> 7) as u8, (v & 0x7F) as u8]
    }
}

fn rec_record(rowid: u64, cols: &[(u64, Vec<u8>)]) -> Vec<u8> {
    let mut header: Vec<u8> = vec![];
    for (code, _) in cols {
        header.extend(rec_varint(*code));
    }
    let hl = header.len() as u64 + 1;
    assert!(hl < 128);
    let mut body: Vec<u8> = vec![];
    for (_, bytes) in cols {
        body.extend(bytes.clone());
    }
    let mut cell: Vec<u8> = vec![];
    cell.extend(rec_varint(hl + body.len() as u64));
    cell.extend(rec_varint(rowid));
    cell.push(hl as u8);
    cell.extend(header);
    cell.extend(body);
    cell
}

fn rec_text(s: &str) -> (u64, Vec<u8>) {
    (13 + 2 * s.len() as u64, s.as_bytes().to_vec())
}

fn rec_int8(v: i8) -> (u64, Vec<u8>) {
    (1, vec![v as u8])
}

fn rec_leaf_page(page_size: usize, cells: &[Vec<u8>]) -> Vec<u8> {
    let mut page = vec![0u8; page_size];
    page[0] = 0x0D;
    page[3] = (cells.len() >> 8) as u8;
    page[4] = cells.len() as u8;
    let total: usize = cells.iter().map(|c| c.len()).sum();
    let mut off = page_size - total;
    for (i, c) in cells.iter().enumerate() {
        page[8 + 2 * i] = (off >> 8) as u8;
        page[8 + 2 * i + 1] = off as u8;
        page[off..off + c.len()].copy_from_slice(c);
        off += c.len();
    }
    page
}

fn fruit_cell() -> Vec<u8> {
    rec_record(1, &[rec_int8(1), rec_text("a"), rec_text("red")])
}

#[test]
fn row_projection_keeps_file_order() {
    let page = rec_leaf_page(512, &[fruit_cell()]);
    let rows = get_table_columns_data(&page, &vec![1, 2]).unwrap();
    assert_eq!(
        rows,
        vec![vec![
            Value::Text("a".to_string()),
            Value::Text("red".to_string())
        ]]
    );
}

#[test]
fn row_projection_ignores_request_order() {
    let page = rec_leaf_page(512, &[fruit_cell()]);
    let forward = get_table_columns_data(&page, &vec![1, 2]).unwrap();
    let backward = get_table_columns_data(&page, &vec![2, 1]).unwrap();
    assert_eq!(forward, backward);
}

#[test]
fn integer_columns_decode_signed_big_endian() {
    let cell = rec_record(
        7,
        &[
            rec_int8(1),
            rec_int8(-2),
            (2, vec![0xFF, 0x7F]),
            (4, vec![0x00, 0x01, 0x00, 0x00]),
            (6, vec![0xFF; 8]),
        ],
    );
    let vals = decode_row(&cell, &vec![0, 1, 2, 3, 4]).unwrap();
    assert_eq!(
        vals,
        vec![
            Value::Int(1),
            Value::Int(-2),
            Value::Int(-129),
            Value::Int(65536),
            Value::Int(-1)
        ]
    );
}

#[test]
fn unrequested_columns_are_skipped_over() {
    // A float column may sit in the record as long as it is not requested.
    let cell = rec_record(
        1,
        &[rec_int8(5), (7, vec![0x40, 0x09, 0, 0, 0, 0, 0, 0]), rec_text("x")],
    );
    let vals = decode_row(&cell, &vec![0, 2]).unwrap();
    assert_eq!(vals, vec![Value::Int(5), Value::Text("x".to_string())]);
}

#[test]
fn requested_float_column_is_unsupported() {
    let cell = rec_record(1, &[(7, vec![0u8; 8]), rec_text("x")]);
    assert_eq!(
        decode_row(&cell, &vec![0]),
        Err(DbError::UnsupportedColumnType)
    );
}

#[test]
fn requested_blob_columns_are_unsupported() {
    let cell = rec_record(1, &[(0, vec![]), (14, vec![0xAA]), rec_int8(3)]);
    assert_eq!(
        decode_row(&cell, &vec![1]),
        Err(DbError::UnsupportedColumnType)
    );
    assert_eq!(decode_row(&cell, &vec![2]), Ok(vec![Value::Int(3)]));
}

#[test]
fn null_and_constant_columns_decode_without_body_bytes() {
    // Three zero-width columns, then an integer: the body holds one byte.
    let cell = rec_record(1, &[(8, vec![]), (9, vec![]), (0, vec![]), rec_int8(7)]);
    let vals = decode_row(&cell, &vec![0, 1, 2, 3]).unwrap();
    assert_eq!(
        vals,
        vec![Value::Int(0), Value::Int(1), Value::Null, Value::Int(7)]
    );
}

#[test]
fn reserved_serial_types_fail_even_unrequested() {
    let cell = rec_record(1, &[(10, vec![]), rec_int8(3)]);
    assert_eq!(
        decode_row(&cell, &vec![1]),
        Err(DbError::UnsupportedColumnType)
    );
}

#[test]
fn text_columns_decode_utf8_lossily() {
    let cell = rec_record(
        1,
        &[(17, vec![0xC3, 0xA9]), (17, vec![0xFF, 0x61])],
    );
    let vals = decode_row(&cell, &vec![0, 1]).unwrap();
    assert_eq!(
        vals,
        vec![
            Value::Text("\u{E9}".to_string()),
            Value::Text("\u{FFFD}a".to_string())
        ]
    );
}

#[test]
fn truncated_record_varint_is_malformed() {
    let mut page = vec![0u8; 64];
    page[0] = 0x0D;
    page[3] = 0;
    page[4] = 1;
    page[8] = 0;
    page[9] = 61;
    page[61] = 0x80;
    page[62] = 0x80;
    page[63] = 0x80;
    assert_eq!(
        get_table_columns_data(&page, &vec![0]),
        Err(DbError::MalformedVarint)
    );
}

#[test]
fn a_column_running_past_the_cell_is_corrupt() {
    // A text column that declares more bytes than the cell holds.
    let mut cell = rec_record(1, &[rec_text("abc")]);
    let len = cell.len();
    cell.truncate(len - 2);
    assert_eq!(decode_row(&cell, &vec![0]), Err(DbError::CorruptPage));
}

#[test]
fn every_leaf_cell_becomes_a_row() {
    let cells = vec![
        rec_record(1, &[rec_int8(1), rec_text("a"), rec_text("red")]),
        rec_record(2, &[rec_int8(2), rec_text("b"), rec_text("green")]),
        rec_record(3, &[rec_int8(3), rec_text("c"), rec_text("blue")]),
    ];
    let page = rec_leaf_page(512, &cells);
    let rows = get_table_columns_data(&page, &vec![0, 1]).unwrap();
    assert_eq!(
        rows,
        vec![
            vec![Value::Int(1), Value::Text("a".to_string())],
            vec![Value::Int(2), Value::Text("b".to_string())],
            vec![Value::Int(3), Value::Text("c".to_string())],
        ]
    );
}

#[test]
fn rows_follow_logical_cell_order_when_pointers_are_stored_backwards() {
    let first = rec_record(1, &[rec_int8(1)]);
    let second = rec_record(2, &[rec_int8(2)]);
    let mut page = vec![0u8; 128];
    page[0] = 0x0D;
    page[3] = 0;
    page[4] = 2;
    let second_off = 128 - second.len();
    let first_off = second_off - first.len();
    // The pointer array names the higher cell first, so logical order is
    // reconstructed by sorting.
    page[8] = (second_off >> 8) as u8;
    page[9] = second_off as u8;
    page[10] = (first_off >> 8) as u8;
    page[11] = first_off as u8;
    page[first_off..second_off].copy_from_slice(&first);
    page[second_off..].copy_from_slice(&second);
    let rows = get_table_columns_data(&page, &vec![0]).unwrap();
    assert_eq!(rows, vec![vec![Value::Int(1)], vec![Value::Int(2)]]);
}

#[test]
fn content_sizes_follow_the_serial_type_table() {
    let widths: [(u64, u64); 12] = [
        (0, 0),
        (1, 1),
        (2, 2),
        (3, 3),
        (4, 4),
        (5, 6),
        (6, 8),
        (7, 8),
        (8, 0),
        (9, 0),
        (12, 0),
        (13, 0),
    ];
    for (code, w) in widths {
        assert_eq!(get_data_type(code).get_content_size(), w);
    }
    assert_eq!(get_data_type(20).get_content_size(), 4); // blob of four bytes
    assert_eq!(get_data_type(21).get_content_size(), 4); // text of four bytes
    assert!(matches!(get_data_type(19), ColumnDataType::Text(3)));
    assert!(matches!(get_data_type(18), ColumnDataType::Blob(3)));
}
