use sqlite_reader::bytes::{parse_int, parse_int_signed};
use sqlite_reader::errors::DbError;
use sqlite_reader::page::{get_cell_addrs, page_size, read_page};

fn header_with_page_size(hi: u8, lo: u8) -> Vec<u8> {
    let mut file = vec![0u8; 100];
    file[16] = hi;
    file[17] = lo;
    file
}

#[test]
fn int_parsing_is_big_endian() {
    assert_eq!(parse_int(&[]), 0);
    assert_eq!(parse_int(&[0x12]), 0x12);
    assert_eq!(parse_int(&[0x12, 0x34]), 0x1234);
    assert_eq!(parse_int(&[0x00, 0x00, 0x00, 0x05]), 5);
    assert_eq!(
        parse_int(&[0xFF, 0xFF, 0xFF, 0xFF, 0xFF, 0xFF, 0xFF, 0xFF]),
        u64::MAX
    );
}

#[test]
fn signed_int_parsing_sign_extends() {
    assert_eq!(parse_int_signed(&[]), 0);
    assert_eq!(parse_int_signed(&[0x7F]), 127);
    assert_eq!(parse_int_signed(&[0xFF]), -1);
    assert_eq!(parse_int_signed(&[0xFE]), -2);
    assert_eq!(parse_int_signed(&[0x80, 0x00]), -32768);
    assert_eq!(parse_int_signed(&[0x00, 0x80]), 128);
    assert_eq!(parse_int_signed(&[0xFF, 0xFF, 0xFF]), -1);
    assert_eq!(
        parse_int_signed(&[0x80, 0x00, 0x00, 0x00, 0x00, 0x00, 0x00, 0x00]),
        i64::MIN
    );
    assert_eq!(
        parse_int_signed(&[0x7F, 0xFF, 0xFF, 0xFF, 0xFF, 0xFF, 0xFF, 0xFF]),
        i64::MAX
    );
}

#[test]
fn page_size_sentinel_one_means_65536() {
    let file = header_with_page_size(0x00, 0x01);
    assert_eq!(page_size(&file), Ok(65536));
}

#[test]
fn page_size_is_read_literally_otherwise() {
    let file = header_with_page_size(0x10, 0x00);
    assert_eq!(page_size(&file), Ok(4096));
    let file = header_with_page_size(0x02, 0x00);
    assert_eq!(page_size(&file), Ok(512));
}

#[test]
fn page_size_needs_a_whole_header() {
    let file = vec![0u8; 99];
    assert_eq!(page_size(&file), Err(DbError::CorruptPage));
}

#[test]
fn read_page_is_one_indexed() {
    let mut file = vec![0u8; 1024];
    file[512] = 0xAB;
    let page = read_page(&file, 512, 2).unwrap();
    assert_eq!(page.len(), 512);
    assert_eq!(page[0], 0xAB);
    let first = read_page(&file, 512, 1).unwrap();
    assert_eq!(first.len(), 512);
    assert_eq!(first[0], 0x00);
}

#[test]
fn read_page_zero_is_refused() {
    let file = vec![0u8; 1024];
    assert_eq!(read_page(&file, 512, 0), Err(DbError::CorruptPage));
}

#[test]
fn read_page_past_the_file_is_refused() {
    let file = vec![0u8; 1024];
    assert_eq!(read_page(&file, 512, 3), Err(DbError::CorruptPage));
}

fn page_with_pointers(pointers: &[u16]) -> Vec<u8> {
    let mut page = vec![0u8; 512];
    page[0] = 0x0D;
    page[3] = (pointers.len() >> 8) as u8;
    page[4] = pointers.len() as u8;
    for (i, p) in pointers.iter().enumerate() {
        page[8 + 2 * i] = (p >> 8) as u8;
        page[8 + 2 * i + 1] = *p as u8;
    }
    page
}

#[test]
fn cell_addrs_keep_increasing_stored_order() {
    let page = page_with_pointers(&[100, 200, 150]);
    // The first two entries increase, so stored order is kept as-is.
    assert_eq!(get_cell_addrs(&page, 8), Ok(vec![100, 200, 150]));
}

#[test]
fn cell_addrs_sort_when_first_two_do_not_increase() {
    let page = page_with_pointers(&[300, 200, 100]);
    assert_eq!(get_cell_addrs(&page, 8), Ok(vec![100, 200, 300]));
    let page = page_with_pointers(&[250, 100, 400, 300]);
    assert_eq!(get_cell_addrs(&page, 8), Ok(vec![100, 250, 300, 400]));
}

#[test]
fn cell_addrs_of_an_empty_or_single_cell_page() {
    let page = page_with_pointers(&[]);
    assert_eq!(get_cell_addrs(&page, 8), Ok(vec![]));
    let page = page_with_pointers(&[77]);
    assert_eq!(get_cell_addrs(&page, 8), Ok(vec![77]));
}

#[test]
fn cell_addrs_refuse_a_truncated_pointer_array() {
    let mut page = vec![0u8; 12];
    page[0] = 0x0D;
    page[3] = 0x00;
    page[4] = 0x09;
    assert_eq!(get_cell_addrs(&page, 8), Err(DbError::CorruptPage));
}
