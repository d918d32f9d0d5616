use sqlite_reader::catalog::{
    get_table_info, get_table_rootpage, parse_first_page, schema_cell_count,
};
use sqlite_reader::errors::DbError;
use sqlite_reader::sql::{column_index, get_columns};

fn cat_varint(v: u64) -> Vec<u8> {
    assert!(v < 1 << 14);
    if v < 128 {
        vec![v as u8]
    } else {
        vec![0x80 | (v >> 7) as u8, (v & 0x7F) as u8]
    }
}

fn cat_record(rowid: u64, cols: &[(u64, Vec<u8>)]) -> Vec<u8> {
    let mut header: Vec<u8> = vec![];
    for (code, _) in cols {
        header.extend(cat_varint(*code));
    }
    let hl = header.len() as u64 + 1;
    assert!(hl < 128);
    let mut body: Vec<u8> = vec![];
    for (_, bytes) in cols {
        body.extend(bytes.clone());
    }
    let mut cell: Vec<u8> = vec![];
    cell.extend(cat_varint(hl + body.len() as u64));
    cell.extend(cat_varint(rowid));
    cell.push(hl as u8);
    cell.extend(header);
    cell.extend(body);
    cell
}

fn cat_text(s: &str) -> (u64, Vec<u8>) {
    (13 + 2 * s.len() as u64, s.as_bytes().to_vec())
}

fn cat_int8(v: i8) -> (u64, Vec<u8>) {
    (1, vec![v as u8])
}

/// Lays out a page: the type tag and cell count at `base`, the pointer
/// array after an 8-byte content header, and the cells packed at the end.
fn cat_page(page_size: usize, base: usize, tag: u8, cells: &[Vec<u8>]) -> Vec<u8> {
    let mut page = vec![0u8; page_size];
    page[base] = tag;
    page[base + 3] = (cells.len() >> 8) as u8;
    page[base + 4] = cells.len() as u8;
    let total: usize = cells.iter().map(|c| c.len()).sum();
    let mut off = page_size - total;
    for (i, c) in cells.iter().enumerate() {
        page[base + 8 + 2 * i] = (off >> 8) as u8;
        page[base + 8 + 2 * i + 1] = off as u8;
        page[off..off + c.len()].copy_from_slice(c);
        off += c.len();
    }
    page
}

type SchemaRow<'a> = (&'a str, &'a str, &'a str, i8, &'a str);

fn cat_schema_page(page_size: usize, entries: &[SchemaRow]) -> Vec<u8> {
    let cells: Vec<Vec<u8>> = entries
        .iter()
        .enumerate()
        .map(|(i, (ty, name, tbl, root, sql))| {
            cat_record(
                i as u64 + 1,
                &[
                    cat_text(ty),
                    cat_text(name),
                    cat_text(tbl),
                    cat_int8(*root),
                    cat_text(sql),
                ],
            )
        })
        .collect();
    let mut page = cat_page(page_size, 100, 0x0D, &cells);
    page[16] = (page_size >> 8) as u8;
    page[17] = page_size as u8;
    page
}

const APPLES_SQL: &str = "CREATE TABLE apples (id integer primary key, name text, color text)";
const ORANGES_SQL: &str = "CREATE TABLE oranges (id integer primary key, name text)";

fn two_table_db() -> Vec<u8> {
    let ps = 512;
    let mut file = cat_schema_page(
        ps,
        &[
            ("table", "apples", "apples", 2, APPLES_SQL),
            ("table", "oranges", "oranges", 3, ORANGES_SQL),
        ],
    );
    let mut leaf = vec![0u8; ps];
    leaf[0] = 0x0D;
    file.extend(leaf.clone());
    file.extend(leaf);
    file
}

#[test]
fn catalog_maps_each_table_to_its_root_page() {
    let file = two_table_db();
    let (ps, _page1, cat) = parse_first_page(&file).unwrap();
    assert_eq!(ps, 512);
    let apples = cat.catalog_lookup(&"apples".to_string()).unwrap();
    assert_eq!(apples.rootpage, 2);
    assert_eq!(apples.type_, "table");
    assert_eq!(apples.name, "apples");
    assert_eq!(apples.tbl_name, "apples");
    assert_eq!(apples.sql, APPLES_SQL);
    let oranges = cat.catalog_lookup(&"oranges".to_string()).unwrap();
    assert_eq!(oranges.rootpage, 3);
}

#[test]
fn catalog_lists_non_internal_tables_in_order() {
    let ps = 512;
    let mut file = cat_schema_page(
        ps,
        &[
            ("table", "apples", "apples", 2, APPLES_SQL),
            (
                "table",
                "sqlite_sequence",
                "sqlite_sequence",
                4,
                "CREATE TABLE sqlite_sequence(name,seq)",
            ),
            ("table", "oranges", "oranges", 3, ORANGES_SQL),
        ],
    );
    file.extend(vec![0u8; 3 * ps]);
    let (_, _, cat) = parse_first_page(&file).unwrap();
    assert_eq!(cat.len(), 3);
    let names = cat.user_table_names();
    assert_eq!(names, vec!["apples".to_string(), "oranges".to_string()]);
    assert_eq!(names.join(" "), "apples oranges");
}

#[test]
fn missing_table_is_table_not_found() {
    let file = two_table_db();
    let (_, _, cat) = parse_first_page(&file).unwrap();
    let r = cat.catalog_lookup(&"grapes".to_string());
    assert!(matches!(r, Err(DbError::TableNotFound)));
    assert!(matches!(
        get_table_rootpage(&file, &"grapes".to_string()),
        Err(DbError::TableNotFound)
    ));
}

#[test]
fn duplicate_table_names_fail_loudly() {
    let file = cat_schema_page(
        512,
        &[
            ("table", "apples", "apples", 2, APPLES_SQL),
            ("table", "apples2", "apples", 3, APPLES_SQL),
        ],
    );
    assert!(matches!(
        parse_first_page(&file),
        Err(DbError::SchemaDecodeError)
    ));
}

#[test]
fn schema_cell_without_five_columns_is_refused() {
    let cells = vec![cat_record(1, &[cat_text("table"), cat_text("apples")])];
    let mut page = cat_page(512, 100, 0x0D, &cells);
    page[16] = 2;
    page[17] = 0;
    let r = get_table_info(&page);
    assert!(matches!(r, Err(DbError::SchemaDecodeError)));
}

#[test]
fn rootpage_lookup_fetches_the_right_page() {
    let file = two_table_db();
    let (page, number) = get_table_rootpage(&file, &"apples".to_string()).unwrap();
    assert_eq!(number, 2);
    assert_eq!(page.len(), 512);
    assert_eq!(page[0], 0x0D);
    assert_eq!(page, file[512..1024].to_vec());
}

#[test]
fn schema_cell_count_reads_the_header_field() {
    let file = two_table_db();
    let page1 = file[..512].to_vec();
    assert_eq!(schema_cell_count(&page1), Ok(2));
}

#[test]
fn declared_columns_come_from_the_creation_statement() {
    let file = two_table_db();
    let cols = get_columns(&file, &"apples".to_string()).unwrap();
    assert_eq!(
        cols,
        vec!["id".to_string(), "name".to_string(), "color".to_string()]
    );
    let cols = get_columns(&file, &"oranges".to_string()).unwrap();
    assert_eq!(cols, vec!["id".to_string(), "name".to_string()]);
    assert!(matches!(
        get_columns(&file, &"grapes".to_string()),
        Err(DbError::TableNotFound)
    ));
}

#[test]
fn column_positions_resolve_in_declaration_order() {
    let cols = vec!["id".to_string(), "name".to_string(), "color".to_string()];
    assert_eq!(column_index(&cols, &"id".to_string()), Ok(0));
    assert_eq!(column_index(&cols, &"name".to_string()), Ok(1));
    assert_eq!(column_index(&cols, &"color".to_string()), Ok(2));
    assert_eq!(
        column_index(&cols, &"taste".to_string()),
        Err(DbError::ColumnNotFound)
    );
}
