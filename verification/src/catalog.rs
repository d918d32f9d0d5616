//! The schema catalog: the tables a database declares.
//!
//! Page one is a table-leaf page whose content begins after the 100-byte
//! file header.  Each of its cells is a record of exactly five declared
//! columns — object type, name, table name, root page, and creation
//! statement — and the catalog maps each table name to its entry, failing
//! loudly when two entries share a name.

use vstd::prelude::*;

use crate::bytes::be_uint;
use crate::bytes::parse_int;
use crate::errors::DbError;
use crate::page::spec_cell_addrs;
use crate::page::spec_cell_array_fits;
use crate::page::spec_cell_count;
use crate::page::spec_page;
use crate::page::spec_page_size;
use crate::record::spec_record_serials;
use crate::record::spec_width;
use crate::record::get_data_type;
use crate::record::read_record_serials;
use crate::text::from_utf8_lossy;
use crate::text::utf8_lossy;

verus! {

/// The byte offset of page one's content: the file header precedes it.
pub const SCHEMA_BASE: usize = 100;

/// One schema entry: a declared object and where its rows live.
#[derive(Debug, Clone)]
pub struct Table {
    /// The object's kind, such as a table or an index.
    pub type_: String,
    /// The object's own name.
    pub name: String,
    /// The name of the table the object belongs to; entries are keyed by it.
    pub tbl_name: String,
    /// The 1-indexed root page of the object's B-tree.
    pub rootpage: usize,
    /// The statement that created the object.
    pub sql: String,
}

/// The mathematical shape of a schema entry.
pub struct TableModel {
    pub type_: Seq<char>,
    pub name: Seq<char>,
    pub tbl_name: Seq<char>,
    pub rootpage: int,
    pub sql: Seq<char>,
}

impl View for Table {
    type V = TableModel;

    open spec fn view(&self) -> TableModel {
        TableModel {
            type_: self.type_@,
            name: self.name@,
            tbl_name: self.tbl_name@,
            rootpage: self.rootpage as int,
            sql: self.sql@,
        }
    }
}

impl DeepView for Table {
    type V = TableModel;

    open spec fn deep_view(&self) -> TableModel {
        self.view()
    }
}

/// The entry a schema cell decodes to.  The five declared columns are
/// sliced by their serial-type widths; the first three and the last are
/// decoded as text, and the root page as a big-endian integer.  A record
/// without five columns, with a reserved or oversized column, or whose
/// columns run past the cell is a schema fault.
pub open spec fn spec_schema_entry(cell: Seq<u8>) -> Result<TableModel, DbError> {
    match spec_record_serials(cell) {
        Err(e) => Err(
            if e == DbError::MalformedVarint {
                e
            } else {
                DbError::SchemaDecodeError
            },
        ),
        Ok(ts) => {
            let types = ts.0;
            let body = ts.1;
            if types.len() < 5 {
                Err(DbError::SchemaDecodeError)
            } else if types[0] == 10 || types[0] == 11 || types[1] == 10 || types[1] == 11
                || types[2] == 10 || types[2] == 11 || types[3] == 10 || types[3] == 11 || types[4]
                == 10 || types[4] == 11 {
                Err(DbError::SchemaDecodeError)
            } else {
                let o1 = body + spec_width(types[0]);
                let o2 = o1 + spec_width(types[1]);
                let o3 = o2 + spec_width(types[2]);
                let o4 = o3 + spec_width(types[3]);
                let o5 = o4 + spec_width(types[4]);
                if o5 > cell.len() {
                    Err(DbError::SchemaDecodeError)
                } else if spec_width(types[3]) > 8 {
                    Err(DbError::SchemaDecodeError)
                } else if be_uint(cell.subrange(o3, o4)) > usize::MAX {
                    Err(DbError::SchemaDecodeError)
                } else {
                    Ok(
                        TableModel {
                            type_: utf8_lossy(cell.subrange(body, o1)),
                            name: utf8_lossy(cell.subrange(o1, o2)),
                            tbl_name: utf8_lossy(cell.subrange(o2, o3)),
                            rootpage: be_uint(cell.subrange(o3, o4)) as int,
                            sql: utf8_lossy(cell.subrange(o4, o5)),
                        },
                    )
                }
            }
        },
    }
}

/// Decodes one schema cell.
#[verifier::loop_isolation(false)]
fn decode_schema_cell(cell: &[u8]) -> (r: Result<Table, DbError>)
    ensures
        (match r {
            Ok(t) => spec_schema_entry(cell@) == Ok::<TableModel, DbError>(t@),
            Err(e) => spec_schema_entry(cell@) == Err::<TableModel, DbError>(e),
        }),
{
    let clen: usize = cell.len();
    let (types, body) = match read_record_serials(cell) {
        Ok(p) => p,
        Err(e) => {
            return Err(
                match e {
                    DbError::MalformedVarint => DbError::MalformedVarint,
                    _ => DbError::SchemaDecodeError,
                },
            );
        },
    };
    let ghost stypes = types@.map_values(|t: u64| t as nat);
    if types.len() < 5 {
        return Err(DbError::SchemaDecodeError);
    }
    let t0 = types[0];
    let t1 = types[1];
    let t2 = types[2];
    let t3 = types[3];
    let t4 = types[4];
    proof {
        assert(stypes[0] == t0 as nat);
        assert(stypes[1] == t1 as nat);
        assert(stypes[2] == t2 as nat);
        assert(stypes[3] == t3 as nat);
        assert(stypes[4] == t4 as nat);
    }
    if t0 == 10 || t0 == 11 || t1 == 10 || t1 == 11 || t2 == 10 || t2 == 11 || t3 == 10 || t3 == 11
        || t4 == 10 || t4 == 11 {
        return Err(DbError::SchemaDecodeError);
    }
    let w0 = get_data_type(t0).get_content_size();
    let w1 = get_data_type(t1).get_content_size();
    let w2 = get_data_type(t2).get_content_size();
    let w3 = get_data_type(t3).get_content_size();
    let w4 = get_data_type(t4).get_content_size();
    proof {
        assert(w0 <= 0x8000_0000_0000_0000u64);
        assert(w1 <= 0x8000_0000_0000_0000u64);
        assert(w2 <= 0x8000_0000_0000_0000u64);
        assert(w3 <= 0x8000_0000_0000_0000u64);
        assert(w4 <= 0x8000_0000_0000_0000u64);
    }
    let o1: u128 = body + w0 as u128;
    let o2: u128 = o1 + w1 as u128;
    let o3: u128 = o2 + w2 as u128;
    let o4: u128 = o3 + w3 as u128;
    let o5: u128 = o4 + w4 as u128;
    if o5 > clen as u128 {
        return Err(DbError::SchemaDecodeError);
    }
    if w3 > 8 {
        return Err(DbError::SchemaDecodeError);
    }
    let s0 = vstd::slice::slice_subrange(cell, body as usize, o1 as usize);
    let s1 = vstd::slice::slice_subrange(cell, o1 as usize, o2 as usize);
    let s2 = vstd::slice::slice_subrange(cell, o2 as usize, o3 as usize);
    let s3 = vstd::slice::slice_subrange(cell, o3 as usize, o4 as usize);
    let s4 = vstd::slice::slice_subrange(cell, o4 as usize, o5 as usize);
    let root64 = parse_int(s3);
    if root64 > usize::MAX as u64 {
        return Err(DbError::SchemaDecodeError);
    }
    Ok(
        Table {
            type_: from_utf8_lossy(s0),
            name: from_utf8_lossy(s1),
            tbl_name: from_utf8_lossy(s2),
            rootpage: root64 as usize,
            sql: from_utf8_lossy(s4),
        },
    )
}

/// The entries of the schema cells from position `i` on of the pointer
/// list `addrs`.
pub open spec fn spec_schema_cells(page: Seq<u8>, addrs: Seq<usize>, i: int) -> Result<
    Seq<TableModel>,
    DbError,
>
    decreases addrs.len() - i,
{
    if i < 0 || i >= addrs.len() {
        Ok(Seq::empty())
    } else {
        let start = addrs[i] as int;
        let end = if i == addrs.len() - 1 {
            page.len() as int
        } else {
            addrs[i + 1] as int
        };
        if !(start <= end <= page.len()) {
            Err(DbError::SchemaDecodeError)
        } else {
            match spec_schema_entry(page.subrange(start, end)) {
                Err(e) => Err(e),
                Ok(entry) => match spec_schema_cells(page, addrs, i + 1) {
                    Err(e) => Err(e),
                    Ok(rest) => Ok(seq![entry] + rest),
                },
            }
        }
    }
}

/// Whether no two entries share a table name.
pub open spec fn spec_unique_names(entries: Seq<TableModel>) -> bool {
    forall|a: int, b: int|
        0 <= a < b < entries.len() ==> (#[trigger] entries[a]).tbl_name != (
        #[trigger] entries[b]).tbl_name
}

/// The catalog of a schema page: its cells decoded in logical order, with
/// duplicate table names refused.
pub open spec fn spec_catalog(page: Seq<u8>) -> Result<Seq<TableModel>, DbError> {
    if !spec_cell_array_fits(page, SCHEMA_BASE as int, 8) {
        Err(DbError::SchemaDecodeError)
    } else {
        match spec_schema_cells(page, spec_cell_addrs(page, SCHEMA_BASE as int, 8), 0) {
            Err(e) => Err(e),
            Ok(entries) => if spec_unique_names(entries) {
                Ok(entries)
            } else {
                Err(DbError::SchemaDecodeError)
            },
        }
    }
}

/// The decoded catalog: one entry per schema cell, table names unique.
pub struct Catalog {
    entries: Vec<Table>,
}

impl View for Catalog {
    type V = Seq<TableModel>;

    closed spec fn view(&self) -> Seq<TableModel> {
        self.entries.deep_view()
    }
}

/// Builds the catalog from the bytes of page one.
#[verifier::loop_isolation(false)]
pub fn get_table_info(schema_page: &Vec<u8>) -> (r: Result<Catalog, DbError>)
    ensures
        (match r {
            Ok(cat) => spec_catalog(schema_page@) == Ok::<Seq<TableModel>, DbError>(cat@),
            Err(e) => spec_catalog(schema_page@) == Err::<Seq<TableModel>, DbError>(e),
        }),
{
    let addrs = match crate::page::cell_addrs_at(schema_page, SCHEMA_BASE, 8) {
        Ok(a) => a,
        Err(_) => {
            return Err(DbError::SchemaDecodeError);
        },
    };
    let mut entries: Vec<Table> = Vec::new();
    let mut i: usize = 0;
    proof {
        assert(entries.deep_view() =~= Seq::<TableModel>::empty());
        match spec_schema_cells(schema_page@, addrs@, 0) {
            Ok(rest) => {
                assert(Seq::<TableModel>::empty() + rest =~= rest);
            },
            Err(_) => {},
        }
    }
    while i < addrs.len()
        invariant
            i <= addrs@.len(),
            (match spec_schema_cells(schema_page@, addrs@, i as int) {
                Ok(rest) => spec_schema_cells(schema_page@, addrs@, 0) == Ok::<
                    Seq<TableModel>,
                    DbError,
                >(entries.deep_view() + rest),
                Err(e) => spec_schema_cells(schema_page@, addrs@, 0) == Err::<
                    Seq<TableModel>,
                    DbError,
                >(e),
            }),
        decreases addrs@.len() - i,
    {
        let start = addrs[i];
        let end = if i == addrs.len() - 1 {
            schema_page.len()
        } else {
            addrs[i + 1]
        };
        if start > end || end > schema_page.len() {
            return Err(DbError::SchemaDecodeError);
        }
        let cell = vstd::slice::slice_subrange(schema_page.as_slice(), start, end);
        proof {
            assert(cell@ =~= schema_page@.subrange(start as int, end as int));
        }
        let ghost pre = entries.deep_view();
        match decode_schema_cell(cell) {
            Err(e) => {
                return Err(e);
            },
            Ok(entry) => {
                let ghost entryv = entry@;
                entries.push(entry);
                proof {
                    assert(entries.deep_view() =~= pre.push(entryv));
                    match spec_schema_cells(schema_page@, addrs@, i + 1) {
                        Ok(rest2v) => {
                            assert(pre + (seq![entryv] + rest2v) =~= pre.push(entryv) + rest2v);
                        },
                        Err(_) => {},
                    }
                }
            },
        }
        i = i + 1;
    }
    proof {
        assert(entries.deep_view() + Seq::<TableModel>::empty() =~= entries.deep_view());
    }
    let mut a: usize = 1;
    while a < entries.len()
        invariant
            1 <= a <= entries@.len() || entries@.len() == 0,
            forall|x: int, y: int|
                0 <= x < y < a && y < entries@.len() ==> (#[trigger] entries.deep_view()[x]).tbl_name
                    != (#[trigger] entries.deep_view()[y]).tbl_name,
        decreases entries@.len() - a,
    {
        let mut b: usize = 0;
        while b < a
            invariant
                b <= a < entries@.len(),
                forall|x: int|
                    0 <= x < b ==> (#[trigger] entries.deep_view()[x]).tbl_name
                        != entries.deep_view()[a as int].tbl_name,
            decreases a - b,
        {
            if entries[b].tbl_name == entries[a].tbl_name {
                proof {
                    let dv = entries.deep_view();
                    assert((dv[b as int]).tbl_name == (dv[a as int]).tbl_name);
                    assert(!spec_unique_names(entries.deep_view()));
                }
                return Err(DbError::SchemaDecodeError);
            }
            b = b + 1;
        }
        a = a + 1;
    }
    proof {
        assert(spec_unique_names(entries.deep_view()));
    }
    Ok(Catalog { entries })
}

/// The first entry whose table name is `name`.
pub open spec fn spec_lookup(entries: Seq<TableModel>, name: Seq<char>) -> Option<TableModel>
    decreases entries.len(),
{
    if entries.len() == 0 {
        None
    } else if entries[0].tbl_name == name {
        Some(entries[0])
    } else {
        spec_lookup(entries.skip(1), name)
    }
}

/// Catalog completeness: with table names unique, looking any entry's own
/// name up yields exactly that entry — no table is missing.
pub proof fn lemma_lookup_finds_each_entry(entries: Seq<TableModel>, i: int)
    requires
        spec_unique_names(entries),
        0 <= i < entries.len(),
    ensures
        spec_lookup(entries, entries[i].tbl_name) == Some(entries[i]),
    decreases entries.len(),
{
    if i > 0 {
        assert(entries[0].tbl_name != entries[i].tbl_name);
        let rest = entries.skip(1);
        assert forall|a: int, b: int| 0 <= a < b < rest.len() implies (#[trigger] rest[a]).tbl_name
            != (#[trigger] rest[b]).tbl_name by {
            assert(rest[a] == entries[a + 1]);
            assert(rest[b] == entries[b + 1]);
        }
        lemma_lookup_finds_each_entry(rest, i - 1);
        assert(rest[i - 1] == entries[i]);
    }
}

/// Catalog soundness: a successful lookup returns an entry of the catalog
/// bearing the asked-for name, and a failed one means no entry bears it —
/// no table is invented.
pub proof fn lemma_lookup_sound(entries: Seq<TableModel>, name: Seq<char>)
    ensures
        (match spec_lookup(entries, name) {
            Some(t) => t.tbl_name == name && entries.contains(t),
            None => forall|i: int|
                0 <= i < entries.len() ==> (#[trigger] entries[i]).tbl_name != name,
        }),
    decreases entries.len(),
{
    if entries.len() > 0 && entries[0].tbl_name != name {
        let rest = entries.skip(1);
        lemma_lookup_sound(rest, name);
        match spec_lookup(rest, name) {
            Some(t) => {
                let k = choose|k: int| 0 <= k < rest.len() && rest[k] == t;
                assert(entries[k + 1] == t);
            },
            None => {
                assert forall|i: int| 0 <= i < entries.len() implies (
                #[trigger] entries[i]).tbl_name != name by {
                    if i > 0 {
                        assert(rest[i - 1] == entries[i]);
                    }
                }
            },
        }
    }
}

/// Whether a table name belongs to the format's internal namespace.
pub open spec fn spec_is_internal(name: Seq<char>) -> bool {
    name.len() >= 7 && name.subrange(0, 7) == "sqlite_"@
}

/// The declared table names that are not internal, in catalog order.
pub open spec fn spec_user_names(entries: Seq<TableModel>) -> Seq<Seq<char>>
    decreases entries.len(),
{
    if entries.len() == 0 {
        Seq::empty()
    } else {
        let rest = spec_user_names(entries.drop_last());
        if spec_is_internal(entries.last().tbl_name) {
            rest
        } else {
            rest.push(entries.last().tbl_name)
        }
    }
}

/// The non-internal listing is exact: it holds a name precisely when some
/// entry bears it and the name is not internal — with nothing missing and
/// nothing invented.
pub proof fn lemma_user_names_exact(entries: Seq<TableModel>, name: Seq<char>)
    ensures
        spec_user_names(entries).contains(name) <==> (!spec_is_internal(name) && exists|i: int|
            0 <= i < entries.len() && (#[trigger] entries[i]).tbl_name == name),
    decreases entries.len(),
{
    if entries.len() > 0 {
        let front = entries.drop_last();
        let last = entries.last();
        lemma_user_names_exact(front, name);
        let rest = spec_user_names(front);
        if spec_is_internal(last.tbl_name) {
            assert(spec_user_names(entries) == rest);
        } else {
            assert(spec_user_names(entries) == rest.push(last.tbl_name));
            assert(rest.push(last.tbl_name).contains(name) <==> (rest.contains(name)
                || last.tbl_name == name)) by {
                if rest.contains(name) {
                    let k = choose|k: int| 0 <= k < rest.len() && rest[k] == name;
                    assert(rest.push(last.tbl_name)[k] == name);
                }
                if last.tbl_name == name {
                    assert(rest.push(last.tbl_name)[rest.len() as int] == name);
                }
                if rest.push(last.tbl_name).contains(name) {
                    let k = choose|k: int|
                        0 <= k < rest.len() + 1 && rest.push(last.tbl_name)[k] == name;
                    if k < rest.len() {
                        assert(rest[k] == name);
                    }
                }
            }
        }
        if exists|i: int| 0 <= i < front.len() && (#[trigger] front[i]).tbl_name == name {
            let i = choose|i: int| 0 <= i < front.len() && (#[trigger] front[i]).tbl_name == name;
            assert(entries[i].tbl_name == name);
        }
        if exists|i: int| 0 <= i < entries.len() && (#[trigger] entries[i]).tbl_name == name {
            let i = choose|i: int|
                0 <= i < entries.len() && (#[trigger] entries[i]).tbl_name == name;
            if i < entries.len() - 1 {
                assert(front[i].tbl_name == name);
            }
        }
    }
}

impl Catalog {
    /// The count of schema entries.
    pub fn len(&self) -> (r: usize)
        ensures
            r == self@.len(),
    {
        self.entries.len()
    }

    /// Looks a table up by its name.  An absent name is `TableNotFound`.
    #[verifier::loop_isolation(false)]
    pub fn catalog_lookup(&self, table_name: &String) -> (r: Result<&Table, DbError>)
        ensures
            (match r {
                Ok(t) => spec_lookup(self@, table_name@) == Some(t@),
                Err(e) => e == DbError::TableNotFound && spec_lookup(self@, table_name@) is None,
            }),
    {
        let mut i: usize = 0;
        proof {
            assert(self@.skip(0) =~= self@);
        }
        while i < self.entries.len()
            invariant
                i <= self@.len(),
                spec_lookup(self@, table_name@) == spec_lookup(self@.skip(i as int), table_name@),
            decreases self@.len() - i,
        {
            proof {
                assert(self@.skip(i as int)[0] == self@[i as int]);
            }
            if self.entries[i].tbl_name == *table_name {
                return Ok(&self.entries[i]);
            }
            proof {
                assert(self@.skip(i as int).skip(1) =~= self@.skip(i as int + 1));
            }
            i = i + 1;
        }
        proof {
            assert(self@.skip(i as int).len() == 0);
        }
        Err(DbError::TableNotFound)
    }

    /// The non-internal table names, in catalog order.
    #[verifier::loop_isolation(false)]
    pub fn user_table_names(&self) -> (r: Vec<String>)
        ensures
            r.deep_view() == spec_user_names(self@),
    {
        let mut out: Vec<String> = Vec::new();
        proof {
            reveal_strlit("sqlite_");
            assert(self@.take(0) =~= Seq::<TableModel>::empty());
            assert(out.deep_view() =~= Seq::<Seq<char>>::empty());
        }
        let mut i: usize = 0;
        while i < self.entries.len()
            invariant
                i <= self@.len(),
                out.deep_view() == spec_user_names(self@.take(i as int)),
            decreases self@.len() - i,
        {
            let ghost pre = out.deep_view();
            let internal = crate::text::str_starts_with(&self.entries[i].tbl_name, "sqlite_");
            proof {
                assert(self@.take(i + 1).drop_last() =~= self@.take(i as int));
                assert(self@.take(i + 1).last() == self@[i as int]);
                assert(internal == spec_is_internal(self@[i as int].tbl_name));
            }
            if !internal {
                out.push(self.entries[i].tbl_name.clone());
                proof {
                    assert(out.deep_view() =~= pre.push(self@[i as int].tbl_name));
                }
            }
            i = i + 1;
        }
        proof {
            assert(self@.take(self@.len() as int) =~= self@);
        }
        out
    }
}

/// The catalog of a whole file: the page size derived from the header and
/// page one decoded.
pub open spec fn spec_catalog_of_file(file: Seq<u8>) -> Result<Seq<TableModel>, DbError> {
    if file.len() < 100 {
        Err(DbError::CorruptPage)
    } else if spec_page_size(file) * 1 > file.len() {
        Err(DbError::CorruptPage)
    } else {
        spec_catalog(spec_page(file, spec_page_size(file), 1))
    }
}

/// Derives the page size, fetches page one, and builds the catalog.
pub fn parse_first_page(file: &Vec<u8>) -> (r: Result<(usize, Vec<u8>, Catalog), DbError>)
    ensures
        (match r {
            Ok(p) => {
                &&& file@.len() >= 100
                &&& p.0 == spec_page_size(file@)
                &&& p.1@ == spec_page(file@, spec_page_size(file@), 1)
                &&& spec_catalog_of_file(file@) == Ok::<Seq<TableModel>, DbError>(p.2@)
            },
            Err(e) => spec_catalog_of_file(file@) == Err::<Seq<TableModel>, DbError>(e),
        }),
{
    let ps = match crate::page::page_size(file) {
        Ok(p) => p,
        Err(e) => {
            return Err(e);
        },
    };
    let page1 = match crate::page::read_page(file, ps, 1) {
        Ok(p) => p,
        Err(e) => {
            return Err(e);
        },
    };
    let cat = match get_table_info(&page1) {
        Ok(c) => c,
        Err(e) => {
            return Err(e);
        },
    };
    Ok((ps, page1, cat))
}

/// The root page of the named table, with that page's bytes.
pub open spec fn spec_table_rootpage(file: Seq<u8>, name: Seq<char>) -> Result<
    (Seq<u8>, int),
    DbError,
> {
    match spec_catalog_of_file(file) {
        Err(e) => Err(e),
        Ok(entries) => match spec_lookup(entries, name) {
            None => Err(DbError::TableNotFound),
            Some(t) => if t.rootpage == 0 || spec_page_size(file) * t.rootpage > file.len() {
                Err(DbError::CorruptPage)
            } else {
                Ok((spec_page(file, spec_page_size(file), t.rootpage as nat), t.rootpage))
            },
        },
    }
}

/// Fetches the root page of the named table: the catalog entry names it,
/// and its bytes are returned with its number.
pub fn get_table_rootpage(file: &Vec<u8>, table_name: &String) -> (r: Result<
    (Vec<u8>, usize),
    DbError,
>)
    ensures
        (match r {
            Ok(p) => spec_table_rootpage(file@, table_name@) == Ok::<(Seq<u8>, int), DbError>(
                (p.0@, p.1 as int),
            ),
            Err(e) => spec_table_rootpage(file@, table_name@) == Err::<(Seq<u8>, int), DbError>(e),
        }),
{
    let (ps, _page1, cat) = match parse_first_page(file) {
        Ok(p) => p,
        Err(e) => {
            return Err(e);
        },
    };
    let entry = match cat.catalog_lookup(table_name) {
        Ok(t) => t,
        Err(e) => {
            return Err(e);
        },
    };
    let root = entry.rootpage;
    let page = match crate::page::read_page(file, ps, root) {
        Ok(p) => p,
        Err(e) => {
            return Err(e);
        },
    };
    Ok((page, root))
}

/// The table count page one declares: its cell count, read without
/// decoding the cells.
pub fn schema_cell_count(schema_page: &Vec<u8>) -> (r: Result<usize, DbError>)
    ensures
        (match r {
            Ok(n) => schema_page@.len() >= SCHEMA_BASE + 5 && n == spec_cell_count(
                schema_page@,
                SCHEMA_BASE as int,
            ),
            Err(e) => e == DbError::CorruptPage && schema_page@.len() < SCHEMA_BASE + 5,
        }),
{
    if schema_page.len() < SCHEMA_BASE + 5 {
        return Err(DbError::CorruptPage);
    }
    Ok((schema_page[SCHEMA_BASE + 3] as usize) * 256 + (schema_page[SCHEMA_BASE + 4] as usize))
}

} // verus!
