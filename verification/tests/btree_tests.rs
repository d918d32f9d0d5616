use sqlite_reader::btree::{count_rows, get_table_pages, leaf_pages};
use sqlite_reader::errors::DbError;

const PS: usize = 512;

fn bt_leaf_page(cell_count: u16) -> Vec<u8> {
    let mut page = vec![0u8; PS];
    page[0] = 0x0D;
    page[3] = (cell_count >> 8) as u8;
    page[4] = cell_count as u8;
    page
}

fn bt_interior_page(children: &[u32], rightmost: u32) -> Vec<u8> {
    let mut page = vec![0u8; PS];
    page[0] = 0x05;
    page[3] = (children.len() >> 8) as u8;
    page[4] = children.len() as u8;
    page[8..12].copy_from_slice(&rightmost.to_be_bytes());
    let mut off = PS - 4 * children.len();
    for (i, c) in children.iter().enumerate() {
        page[12 + 2 * i] = (off >> 8) as u8;
        page[12 + 2 * i + 1] = off as u8;
        page[off..off + 4].copy_from_slice(&c.to_be_bytes());
        off += 4;
    }
    page
}

fn bt_header_page() -> Vec<u8> {
    let mut page = vec![0u8; PS];
    page[16] = (PS >> 8) as u8;
    page[17] = PS as u8;
    page[100] = 0x0D;
    page
}

/// Pages two to six: an interior root at page two pointing at leaves four,
/// five, and six; page three is a spare leaf.
fn bt_fixture_db() -> Vec<u8> {
    let mut file = bt_header_page();
    file.extend(bt_interior_page(&[4, 5], 6));
    file.extend(bt_leaf_page(0));
    file.extend(bt_leaf_page(2));
    file.extend(bt_leaf_page(3));
    file.extend(bt_leaf_page(4));
    file
}

#[test]
fn single_leaf_table_is_its_own_root() {
    let file = bt_fixture_db();
    assert_eq!(leaf_pages(&file, PS, 3), Ok(vec![3]));
    let root = bt_leaf_page(0);
    assert_eq!(get_table_pages(&root, 3), Ok(vec![3]));
}

#[test]
fn interior_root_lists_children_then_rightmost() {
    let file = bt_fixture_db();
    assert_eq!(leaf_pages(&file, PS, 2), Ok(vec![4, 5, 6]));
    let root = bt_interior_page(&[4, 5], 6);
    assert_eq!(get_table_pages(&root, 2), Ok(vec![4, 5, 6]));
}

#[test]
fn count_sums_each_leaf_cell_count() {
    let file = bt_fixture_db();
    let pages = leaf_pages(&file, PS, 2).unwrap();
    assert_eq!(count_rows(&file, PS, &pages), Ok(2 + 3 + 4));
}

#[test]
fn count_of_a_single_empty_leaf_is_zero() {
    let file = bt_fixture_db();
    let pages = leaf_pages(&file, PS, 3).unwrap();
    assert_eq!(count_rows(&file, PS, &pages), Ok(0));
}

#[test]
fn unknown_page_type_is_refused() {
    let mut root = bt_leaf_page(0);
    root[0] = 0x02;
    assert_eq!(get_table_pages(&root, 2), Err(DbError::UnsupportedPageType));
    let mut file = bt_fixture_db();
    file[2 * PS] = 0x0A;
    assert_eq!(leaf_pages(&file, PS, 3), Err(DbError::UnsupportedPageType));
}

#[test]
fn interior_child_of_interior_is_too_deep() {
    let mut file = bt_header_page();
    file.extend(bt_interior_page(&[3], 4));
    file.extend(bt_interior_page(&[5], 6));
    file.extend(bt_leaf_page(0));
    file.extend(bt_leaf_page(0));
    file.extend(bt_leaf_page(0));
    assert_eq!(leaf_pages(&file, PS, 2), Err(DbError::UnsupportedTreeDepth));
}

#[test]
fn walking_a_missing_page_is_corrupt() {
    let file = bt_header_page();
    assert_eq!(leaf_pages(&file, PS, 2), Err(DbError::CorruptPage));
    assert_eq!(leaf_pages(&file, PS, 0), Err(DbError::CorruptPage));
}

#[test]
fn interior_child_pointer_past_the_page_is_corrupt() {
    let mut root = bt_interior_page(&[4], 5);
    // Point the only cell just past the page's end.
    root[12] = ((PS - 2) >> 8) as u8;
    root[13] = (PS - 2) as u8;
    assert_eq!(get_table_pages(&root, 2), Err(DbError::CorruptPage));
}
