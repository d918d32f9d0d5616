//! Pages: size derivation, fetching a page by number, and cell pointer
//! arrays.
//!
//! A page is `page_size` bytes at byte offset `page_size * (number - 1)` of
//! the file; page numbers are 1-indexed.  A page's content region (the file
//! header precedes it on page one) holds a big-endian cell count at offset
//! three and an array of big-endian cell pointers after its header.

use vstd::prelude::*;
use vstd::relations::{sorted_by, total_ordering};

use crate::errors::DbError;

verus! {

/// The big-endian sixteen-bit value at `off`.
pub open spec fn be16(page: Seq<u8>, off: int) -> nat
    recommends
        0 <= off,
        off + 2 <= page.len(),
{
    (page[off] * 256 + page[off + 1]) as nat
}

/// The page size a file header declares: the big-endian sixteen-bit value at
/// offset sixteen, with the stored value one standing for 65536.
pub open spec fn spec_page_size(header: Seq<u8>) -> nat {
    if be16(header, 16) == 1 {
        65536
    } else {
        be16(header, 16)
    }
}

/// Derives the page size from the file's 100-byte header.  A file too short
/// to hold the whole header is refused rather than read as zeroes.
pub fn page_size(file: &Vec<u8>) -> (r: Result<usize, DbError>)
    ensures
        (match r {
            Ok(s) => file@.len() >= 100 && s == spec_page_size(file@),
            Err(e) => e == DbError::CorruptPage && file@.len() < 100,
        }),
{
    if file.len() < 100 {
        return Err(DbError::CorruptPage);
    }
    let raw: usize = (file[16] as usize) * 256 + (file[17] as usize);
    if raw == 1 {
        Ok(65536)
    } else {
        Ok(raw)
    }
}

/// The bytes of the 1-indexed page `number`.
pub open spec fn spec_page(file: Seq<u8>, page_size: nat, number: nat) -> Seq<u8>
    recommends
        1 <= number,
        page_size * number <= file.len(),
{
    file.subrange((page_size * (number - 1)) as int, (page_size * number) as int)
}

/// Fetches the 1-indexed page `number`: exactly `page_size` bytes starting
/// at byte `page_size * (number - 1)`.  Page zero does not exist, and a page
/// that would run past the end of the file is refused.
pub fn read_page(file: &Vec<u8>, page_size: usize, page_number: usize) -> (r: Result<
    Vec<u8>,
    DbError,
>)
    ensures
        (match r {
            Ok(p) => 1 <= page_number && (page_size as nat) * (page_number as nat) <= file@.len()
                && p@ == spec_page(file@, page_size as nat, page_number as nat),
            Err(e) => e == DbError::CorruptPage && (page_number == 0 || (page_size as nat) * (
            page_number as nat) > file@.len()),
        }),
{
    if page_number == 0 {
        return Err(DbError::CorruptPage);
    }
    let flen: usize = file.len();
    let end = match (page_size as u64).checked_mul(page_number as u64) {
        Some(e) => e,
        None => {
            proof {
                assert((page_size as nat) * (page_number as nat) > flen) by (nonlinear_arith)
                    requires
                        (page_size as nat) * (page_number as nat) > 0xffff_ffff_ffff_ffff,
                        flen <= 0xffff_ffff_ffff_ffff,
                ;
            }
            return Err(DbError::CorruptPage);
        },
    };
    if end > flen as u64 {
        return Err(DbError::CorruptPage);
    }
    proof {
        assert((page_size as nat) * ((page_number - 1) as nat) == (page_size as nat) * (
        page_number as nat) - page_size) by (nonlinear_arith)
            requires
                page_number >= 1,
        ;
    }
    let start: usize = (end as usize) - page_size;
    let piece = vstd::slice::slice_subrange(file.as_slice(), start, end as usize);
    Ok(vstd::slice::slice_to_vec(piece))
}

/// The count of cells of the page content that begins at `base`: the
/// big-endian sixteen-bit value at `base + 3`.
pub open spec fn spec_cell_count(page: Seq<u8>, base: int) -> nat {
    be16(page, base + 3)
}

/// The stored cell pointer array: one big-endian sixteen-bit page offset per
/// cell, starting at `base + header_size`.
pub open spec fn spec_stored_pointers(page: Seq<u8>, base: int, header_size: int) -> Seq<usize> {
    Seq::new(spec_cell_count(page, base), |i: int| be16(page, base + header_size + 2 * i) as usize)
}

/// Whether the page holds its cell-count field and its whole pointer array.
pub open spec fn spec_cell_array_fits(page: Seq<u8>, base: int, header_size: int) -> bool {
    &&& base + 5 <= page.len()
    &&& base + header_size + 2 * spec_cell_count(page, base) <= page.len()
}

/// Numeric order on page offsets.
pub open spec fn offset_le() -> spec_fn(usize, usize) -> bool {
    |a: usize, b: usize| a <= b
}

/// Numeric order on page offsets is total.
pub proof fn lemma_offset_le_total()
    ensures
        total_ordering(offset_le()),
{
    let r = offset_le();
    assert forall|x: usize| #[trigger] r(x, x) by {}
}

/// The cell pointers in logical cell order: stored order where the first two
/// stored entries already increase, else sorted ascending.
pub open spec fn spec_cell_addrs(page: Seq<u8>, base: int, header_size: int) -> Seq<usize> {
    let stored = spec_stored_pointers(page, base, header_size);
    if stored.len() > 1 && !(stored[0] < stored[1]) {
        stored.sort_by(offset_le())
    } else {
        stored
    }
}

/// Inserting into a sequence adds exactly one occurrence to its multiset.
proof fn lemma_insert_multiset<A>(s: Seq<A>, pos: int, x: A)
    requires
        0 <= pos <= s.len(),
    ensures
        s.insert(pos, x).to_multiset() =~= s.to_multiset().insert(x),
{
    broadcast use vstd::seq_lib::group_to_multiset_ensures;
    broadcast use vstd::multiset::group_multiset_axioms;

    let t = s.insert(pos, x);
    s.insert_ensures(pos, x);
    t.remove_ensures(pos);
    assert(t.remove(pos) =~= s);
    assert(t[pos] == x);
    assert(t.contains(x));
    assert(s.to_multiset() == t.to_multiset().remove(x));
}

/// Sorts page offsets ascending.
fn sort_offsets(v: &Vec<usize>) -> (r: Vec<usize>)
    ensures
        r@ == v@.sort_by(offset_le()),
{
    broadcast use vstd::seq_lib::group_to_multiset_ensures;

    proof {
        lemma_offset_le_total();
    }
    let mut out: Vec<usize> = Vec::new();
    proof {
        assert(v@.take(0) =~= Seq::<usize>::empty());
        assert(out@.to_multiset() =~= v@.take(0).to_multiset());
    }
    let mut i: usize = 0;
    while i < v.len()
        invariant
            i <= v@.len(),
            sorted_by(out@, offset_le()),
            out@.to_multiset() == v@.take(i as int).to_multiset(),
            out@.len() == i,
        decreases v@.len() - i,
    {
        let x = v[i];
        let mut j: usize = 0;
        while j < out.len() && out[j] <= x
            invariant
                j <= out@.len(),
                forall|k: int| 0 <= k < j ==> #[trigger] out@[k] <= x,
            decreases out@.len() - j,
        {
            j = j + 1;
        }
        let ghost pre = out@;
        proof {
            pre.insert_ensures(j as int, x);
            lemma_insert_multiset(pre, j as int, x);
        }
        out.insert(j, x);
        proof {
            assert(v@.take(i + 1) =~= v@.take(i as int).push(v@[i as int]));
            v@.take(i as int).to_multiset_ensures();
            assert(v@.take(i as int).push(v@[i as int]).to_multiset() =~= v@.take(
                i as int,
            ).to_multiset().insert(v@[i as int]));
            assert(out@.to_multiset() =~= v@.take(i + 1).to_multiset());
            assert forall|a: int, b: int| 0 <= a < b < out@.len() implies #[trigger] offset_le()(
                out@[a],
                out@[b],
            ) by {
                if b < j {
                    assert(out@[a] == pre[a] && out@[b] == pre[b]);
                } else if a < j && b == j {
                    assert(out@[a] == pre[a] && out@[b] == x);
                } else if a < j && b > j {
                    assert(out@[a] == pre[a] && out@[b] == pre[b - 1]);
                } else if a == j {
                    assert(out@[a] == x && out@[b] == pre[b - 1]);
                    assert(!(pre[j as int] <= x));
                    assert(offset_le()(pre[j as int], pre[b - 1]) || j == b - 1);
                } else {
                    assert(out@[a] == pre[a - 1] && out@[b] == pre[b - 1]);
                }
            }
        }
        i = i + 1;
    }
    proof {
        assert(v@.take(v@.len() as int) =~= v@);
        v@.lemma_sort_by_ensures(offset_le());
        vstd::seq_lib::lemma_sorted_unique(out@, v@.sort_by(offset_le()), offset_le());
    }
    out
}

/// Reads the stored cell pointer array of the page content at `base`.
pub(crate) fn cell_pointers(page: &Vec<u8>, base: usize, header_size: usize) -> (r: Result<
    Vec<usize>,
    DbError,
>)
    ensures
        (match r {
            Ok(v) => spec_cell_array_fits(page@, base as int, header_size as int) && v@
                == spec_stored_pointers(page@, base as int, header_size as int),
            Err(e) => e == DbError::CorruptPage && !spec_cell_array_fits(
                page@,
                base as int,
                header_size as int,
            ),
        }),
{
    if page.len() < 5 || base > page.len() - 5 {
        return Err(DbError::CorruptPage);
    }
    let count: usize = (page[base + 3] as usize) * 256 + (page[base + 4] as usize);
    if (base as u128) + (header_size as u128) + 2 * (count as u128) > page.len() as u128 {
        return Err(DbError::CorruptPage);
    }
    let mut addrs: Vec<usize> = Vec::new();
    let mut i: usize = 0;
    while i < count
        invariant
            i <= count,
            count == spec_cell_count(page@, base as int),
            base + header_size + 2 * count <= page@.len(),
            page@.len() <= usize::MAX,
            addrs@.len() == i,
            forall|k: int|
                0 <= k < i ==> addrs@[k] == be16(page@, base + header_size + 2 * k) as usize,
        decreases count - i,
    {
        let off = base + header_size + 2 * i;
        let ptr: usize = (page[off] as usize) * 256 + (page[off + 1] as usize);
        addrs.push(ptr);
        i = i + 1;
    }
    proof {
        assert(addrs@ =~= spec_stored_pointers(page@, base as int, header_size as int));
    }
    Ok(addrs)
}

/// Reads the cell pointer array of the page content at `base` and puts it in
/// logical cell order.
pub(crate) fn cell_addrs_at(page: &Vec<u8>, base: usize, header_size: usize) -> (r: Result<
    Vec<usize>,
    DbError,
>)
    ensures
        (match r {
            Ok(v) => spec_cell_array_fits(page@, base as int, header_size as int) && v@
                == spec_cell_addrs(page@, base as int, header_size as int),
            Err(e) => e == DbError::CorruptPage && !spec_cell_array_fits(
                page@,
                base as int,
                header_size as int,
            ),
        }),
{
    let stored = cell_pointers(page, base, header_size)?;
    if stored.len() > 1 && stored[0] >= stored[1] {
        Ok(sort_offsets(&stored))
    } else {
        Ok(stored)
    }
}

/// Reads the cell pointer array of an ordinary page (content at offset
/// zero), in logical cell order: as stored where the first two entries
/// already increase, else sorted ascending.
pub fn get_cell_addrs(table_page: &Vec<u8>, header_size: usize) -> (r: Result<Vec<usize>, DbError>)
    ensures
        (match r {
            Ok(v) => spec_cell_array_fits(table_page@, 0, header_size as int) && v@
                == spec_cell_addrs(table_page@, 0, header_size as int),
            Err(e) => e == DbError::CorruptPage && !spec_cell_array_fits(
                table_page@,
                0,
                header_size as int,
            ),
        }),
{
    cell_addrs_at(table_page, 0, header_size)
}

} // verus!
