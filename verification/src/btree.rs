//! The table B-tree walker.
//!
//! A root page is a table leaf — the whole table in one page — or a table
//! interior holding a four-byte big-endian child pointer at the start of
//! each cell and a rightmost pointer at byte offsets eight to twelve.  One
//! level of indirection is supported: a deeper tree fails rather than
//! losing rows, and index pages are refused outright.

use vstd::prelude::*;

use crate::bytes::be_uint;
use crate::bytes::lemma_be_uint_bound;
use crate::bytes::lemma_pow256_values;
use crate::bytes::parse_int;
use crate::errors::DbError;
use crate::page::read_page;
use crate::page::spec_cell_addrs;
use crate::page::spec_cell_array_fits;
use crate::page::spec_cell_count;
use crate::page::spec_page;

verus! {

/// The type tag of a table-leaf page.
pub const TABLE_LEAF: u8 = 0x0d;

/// The type tag of a table-interior page.
pub const TABLE_INTERIOR: u8 = 0x05;

/// The child page numbers of the cells from position `i` on: a four-byte
/// big-endian number at the start of each cell.
pub open spec fn spec_children_from(page: Seq<u8>, addrs: Seq<usize>, i: int) -> Result<
    Seq<usize>,
    DbError,
>
    decreases addrs.len() - i,
{
    if i < 0 || i >= addrs.len() {
        Ok(Seq::empty())
    } else {
        let a = addrs[i] as int;
        if a + 4 > page.len() {
            Err(DbError::CorruptPage)
        } else {
            match spec_children_from(page, addrs, i + 1) {
                Err(e) => Err(e),
                Ok(rest) => Ok(seq![be_uint(page.subrange(a, a + 4)) as usize] + rest),
            }
        }
    }
}

/// The pages that together hold the rows of the table rooted at the given
/// page: the root alone where it is a leaf, else its children followed by
/// its rightmost pointer, in key order.  Any other page kind is refused.
pub open spec fn spec_table_pages(rootpage: Seq<u8>, rootpage_number: usize) -> Result<
    Seq<usize>,
    DbError,
> {
    if rootpage.len() == 0 {
        Err(DbError::CorruptPage)
    } else if rootpage[0] == TABLE_LEAF {
        Ok(seq![rootpage_number])
    } else if rootpage[0] == TABLE_INTERIOR {
        if rootpage.len() < 12 {
            Err(DbError::CorruptPage)
        } else if !spec_cell_array_fits(rootpage, 0, 12) {
            Err(DbError::CorruptPage)
        } else {
            match spec_children_from(rootpage, spec_cell_addrs(rootpage, 0, 12), 0) {
                Err(e) => Err(e),
                Ok(children) => Ok(children + seq![be_uint(rootpage.subrange(8, 12)) as usize]),
            }
        }
    } else {
        Err(DbError::UnsupportedPageType)
    }
}

/// Lists the pages of the table rooted at the given page: the root alone
/// where it is a leaf, else each cell's child page number followed by the
/// rightmost pointer.
#[verifier::loop_isolation(false)]
pub fn get_table_pages(rootpage: &Vec<u8>, rootpage_number: usize) -> (r: Result<
    Vec<usize>,
    DbError,
>)
    ensures
        (match r {
            Ok(pages) => spec_table_pages(rootpage@, rootpage_number) == Ok::<Seq<usize>, DbError>(
                pages@,
            ),
            Err(e) => spec_table_pages(rootpage@, rootpage_number) == Err::<Seq<usize>, DbError>(e),
        }),
{
    if rootpage.len() == 0 {
        return Err(DbError::CorruptPage);
    }
    let tag = rootpage[0];
    if tag == TABLE_LEAF {
        let mut result: Vec<usize> = Vec::new();
        result.push(rootpage_number);
        proof {
            assert(result@ =~= seq![rootpage_number]);
        }
        return Ok(result);
    }
    if tag != TABLE_INTERIOR {
        return Err(DbError::UnsupportedPageType);
    }
    if rootpage.len() < 12 {
        return Err(DbError::CorruptPage);
    }
    let addrs = match crate::page::get_cell_addrs(rootpage, 12) {
        Ok(a) => a,
        Err(e) => {
            return Err(e);
        },
    };
    let ghost saddrs = addrs@;
    let mut result: Vec<usize> = Vec::new();
    let mut i: usize = 0;
    proof {
        match spec_children_from(rootpage@, saddrs, 0) {
            Ok(rest) => {
                assert(Seq::<usize>::empty() + rest =~= rest);
            },
            Err(_) => {},
        }
    }
    while i < addrs.len()
        invariant
            i <= saddrs.len(),
            (match spec_children_from(rootpage@, saddrs, i as int) {
                Ok(rest) => spec_children_from(rootpage@, saddrs, 0) == Ok::<Seq<usize>, DbError>(
                    result@ + rest,
                ),
                Err(e) => spec_children_from(rootpage@, saddrs, 0) == Err::<Seq<usize>, DbError>(e),
            }),
        decreases saddrs.len() - i,
    {
        let a = addrs[i];
        if (a as u128) + 4 > rootpage.len() as u128 {
            return Err(DbError::CorruptPage);
        }
        let piece = vstd::slice::slice_subrange(rootpage.as_slice(), a, a + 4);
        proof {
            assert(piece@ =~= rootpage@.subrange(a as int, a as int + 4));
            lemma_be_uint_bound(piece@);
            lemma_pow256_values();
        }
        let child = parse_int(piece) as usize;
        let ghost pre = result@;
        result.push(child);
        proof {
            match spec_children_from(rootpage@, saddrs, i + 1) {
                Ok(rest2v) => {
                    assert(pre + (seq![child] + rest2v) =~= pre.push(child) + rest2v);
                },
                Err(_) => {},
            }
        }
        i = i + 1;
    }
    let piece = vstd::slice::slice_subrange(rootpage.as_slice(), 8, 12);
    proof {
        assert(piece@ =~= rootpage@.subrange(8, 12));
        lemma_be_uint_bound(piece@);
        lemma_pow256_values();
        match spec_children_from(rootpage@, saddrs, saddrs.len() as int) {
            Ok(rest) => {
                assert(result@ + rest =~= result@);
            },
            Err(_) => {},
        }
    }
    let rightmost = parse_int(piece) as usize;
    result.push(rightmost);
    Ok(result)
}

/// Whether every one of the pages from position `i` on is a table leaf:
/// an interior child means a tree deeper than one level, and any other
/// kind is not a table page at all.
pub open spec fn spec_check_leaves(
    file: Seq<u8>,
    page_size: nat,
    pages: Seq<usize>,
    i: int,
) -> Result<(), DbError>
    decreases pages.len() - i,
{
    if i < 0 || i >= pages.len() {
        Ok(())
    } else {
        let p = pages[i];
        if p == 0 || page_size * p > file.len() {
            Err(DbError::CorruptPage)
        } else {
            let pg = spec_page(file, page_size, p as nat);
            if pg.len() == 0 {
                Err(DbError::CorruptPage)
            } else if pg[0] == TABLE_LEAF {
                spec_check_leaves(file, page_size, pages, i + 1)
            } else if pg[0] == TABLE_INTERIOR {
                Err(DbError::UnsupportedTreeDepth)
            } else {
                Err(DbError::UnsupportedPageType)
            }
        }
    }
}

/// The ordered leaf pages of the table rooted at page `root`: the root
/// alone where it is a leaf, else its children — each of which must itself
/// be a leaf — followed by the rightmost pointer.
pub open spec fn spec_leaf_pages(file: Seq<u8>, page_size: nat, root: usize) -> Result<
    Seq<usize>,
    DbError,
> {
    if root == 0 || page_size * root > file.len() {
        Err(DbError::CorruptPage)
    } else {
        let rootpage = spec_page(file, page_size, root as nat);
        match spec_table_pages(rootpage, root) {
            Err(e) => Err(e),
            Ok(pages) => if rootpage[0] == TABLE_LEAF {
                Ok(pages)
            } else {
                match spec_check_leaves(file, page_size, pages, 0) {
                    Err(e) => Err(e),
                    Ok(u) => Ok(pages),
                }
            },
        }
    }
}

/// Lists the ordered leaf pages that together hold every row of the table
/// rooted at page `root`, refusing trees deeper than one level.
#[verifier::loop_isolation(false)]
pub fn leaf_pages(file: &Vec<u8>, page_size: usize, root: usize) -> (r: Result<Vec<usize>, DbError>)
    ensures
        (match r {
            Ok(pages) => spec_leaf_pages(file@, page_size as nat, root) == Ok::<
                Seq<usize>,
                DbError,
            >(pages@),
            Err(e) => spec_leaf_pages(file@, page_size as nat, root) == Err::<Seq<usize>, DbError>(
                e,
            ),
        }),
{
    let rootpage = match read_page(file, page_size, root) {
        Ok(p) => p,
        Err(e) => {
            return Err(e);
        },
    };
    let pages = match get_table_pages(&rootpage, root) {
        Ok(p) => p,
        Err(e) => {
            return Err(e);
        },
    };
    if rootpage[0] == TABLE_LEAF {
        return Ok(pages);
    }
    let mut i: usize = 0;
    while i < pages.len()
        invariant
            i <= pages@.len(),
            spec_check_leaves(file@, page_size as nat, pages@, 0) == spec_check_leaves(
                file@,
                page_size as nat,
                pages@,
                i as int,
            ),
        decreases pages@.len() - i,
    {
        let p = pages[i];
        let child = match read_page(file, page_size, p) {
            Ok(c) => c,
            Err(e) => {
                return Err(e);
            },
        };
        if child.len() == 0 {
            return Err(DbError::CorruptPage);
        }
        let tag = child[0];
        if tag == TABLE_INTERIOR {
            return Err(DbError::UnsupportedTreeDepth);
        }
        if tag != TABLE_LEAF {
            return Err(DbError::UnsupportedPageType);
        }
        i = i + 1;
    }
    Ok(pages)
}

/// A single-leaf table is complete in its root: where the root page is
/// itself a table leaf, the table's leaf pages are exactly the root.
pub proof fn lemma_single_leaf_pages(file: Seq<u8>, page_size: nat, root: usize)
    requires
        root >= 1,
        page_size * root <= file.len(),
        spec_page(file, page_size, root as nat).len() > 0,
        spec_page(file, page_size, root as nat)[0] == TABLE_LEAF,
    ensures
        spec_leaf_pages(file, page_size, root) == Ok::<Seq<usize>, DbError>(seq![root]),
{
}

/// The sum of the cell counts of the pages from position `i` on.
pub open spec fn spec_count_rows(
    file: Seq<u8>,
    page_size: nat,
    pages: Seq<usize>,
    i: int,
) -> Result<nat, DbError>
    decreases pages.len() - i,
{
    if i < 0 || i >= pages.len() {
        Ok(0)
    } else {
        let p = pages[i];
        if p == 0 || page_size * p > file.len() {
            Err(DbError::CorruptPage)
        } else {
            let pg = spec_page(file, page_size, p as nat);
            if pg.len() < 5 {
                Err(DbError::CorruptPage)
            } else {
                match spec_count_rows(file, page_size, pages, i + 1) {
                    Err(e) => Err(e),
                    Ok(rest) => Ok((spec_cell_count(pg, 0) + rest) as nat),
                }
            }
        }
    }
}

/// Counts the rows held in the given leaf pages: the sum of each page's
/// cell count, read from the page itself.
#[verifier::loop_isolation(false)]
pub fn count_rows(file: &Vec<u8>, page_size: usize, pages: &Vec<usize>) -> (r: Result<u64, DbError>)
    requires
        pages@.len() <= 0x1_0000_0000_0000,
    ensures
        (match r {
            Ok(c) => spec_count_rows(file@, page_size as nat, pages@, 0) == Ok::<nat, DbError>(
                c as nat,
            ),
            Err(e) => spec_count_rows(file@, page_size as nat, pages@, 0) == Err::<nat, DbError>(e),
        }),
{
    let mut count: u64 = 0;
    let mut i: usize = 0;
    proof {
        match spec_count_rows(file@, page_size as nat, pages@, 0) {
            Ok(rest) => {
                assert(0 + rest == rest);
            },
            Err(_) => {},
        }
    }
    while i < pages.len()
        invariant
            i <= pages@.len(),
            count <= i * 0xffff,
            (match spec_count_rows(file@, page_size as nat, pages@, i as int) {
                Ok(rest) => spec_count_rows(file@, page_size as nat, pages@, 0) == Ok::<
                    nat,
                    DbError,
                >((count + rest) as nat),
                Err(e) => spec_count_rows(file@, page_size as nat, pages@, 0) == Err::<nat, DbError>(
                    e,
                ),
            }),
        decreases pages@.len() - i,
    {
        let p = pages[i];
        let page = match read_page(file, page_size, p) {
            Ok(c) => c,
            Err(e) => {
                return Err(e);
            },
        };
        if page.len() < 5 {
            return Err(DbError::CorruptPage);
        }
        let cells: u64 = (page[3] as u64) * 256 + (page[4] as u64);
        proof {
            assert(cells == spec_cell_count(page@, 0));
            assert(count + cells <= (i + 1) * 0xffff) by (nonlinear_arith)
                requires
                    count <= i * 0xffff,
                    cells <= 0xffff,
            ;
            assert((i + 1) * 0xffff <= 0x1_0000_0000_0000 * 0xffff) by (nonlinear_arith)
                requires
                    i + 1 <= 0x1_0000_0000_0000,
            ;
        }
        count = count + cells;
        i = i + 1;
    }
    Ok(count)
}

} // verus!
