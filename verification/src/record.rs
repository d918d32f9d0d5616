//! Record decoding: serial types and typed column values.
//!
//! A table-leaf cell is a payload length, a rowid, and a record: a header
//! whose length is given first and whose remaining bytes are serial-type
//! varints, one per column, followed by the column bodies.  A column's body
//! width follows from its serial type alone, so the body is walked by
//! summing widths, and only the requested columns are materialized.

use vstd::prelude::*;

use crate::bytes::be_sint;
use crate::bytes::parse_int_signed;
use crate::errors::DbError;
use crate::text::from_utf8_lossy;
use crate::text::utf8_lossy;
use crate::varint::lemma_varint_decode_props;
use crate::varint::parse_varint;
use crate::varint::varint_decode;

verus! {

/// The on-disk kind a column's serial type selects.
pub enum ColumnDataType {
    Null,
    EightBit,
    SixteenBit,
    TwentyFourBit,
    ThirtyTwoBit,
    FortyEightBit,
    SixtyFourBit,
    Float,
    IntegerZero,
    IntegerOne,
    Text(u64),
    Blob(u64),
}

/// The kind serial type `code` selects.  Codes ten and eleven are reserved
/// and select nothing.
pub open spec fn spec_data_type(code: nat) -> ColumnDataType
    recommends
        code != 10,
        code != 11,
{
    if code == 0 {
        ColumnDataType::Null
    } else if code == 1 {
        ColumnDataType::EightBit
    } else if code == 2 {
        ColumnDataType::SixteenBit
    } else if code == 3 {
        ColumnDataType::TwentyFourBit
    } else if code == 4 {
        ColumnDataType::ThirtyTwoBit
    } else if code == 5 {
        ColumnDataType::FortyEightBit
    } else if code == 6 {
        ColumnDataType::SixtyFourBit
    } else if code == 7 {
        ColumnDataType::Float
    } else if code == 8 {
        ColumnDataType::IntegerZero
    } else if code == 9 {
        ColumnDataType::IntegerOne
    } else if code % 2 == 0 {
        ColumnDataType::Blob(((code - 12) / 2) as u64)
    } else {
        ColumnDataType::Text(((code - 13) / 2) as u64)
    }
}

/// The count of body bytes each kind occupies.
pub open spec fn spec_content_size(t: ColumnDataType) -> nat {
    match t {
        ColumnDataType::Null => 0,
        ColumnDataType::EightBit => 1,
        ColumnDataType::SixteenBit => 2,
        ColumnDataType::TwentyFourBit => 3,
        ColumnDataType::ThirtyTwoBit => 4,
        ColumnDataType::FortyEightBit => 6,
        ColumnDataType::SixtyFourBit => 8,
        ColumnDataType::Float => 8,
        ColumnDataType::IntegerZero => 0,
        ColumnDataType::IntegerOne => 0,
        ColumnDataType::Text(size) => size as nat,
        ColumnDataType::Blob(size) => size as nat,
    }
}

/// The body width serial type `code` selects.
pub open spec fn spec_width(code: nat) -> nat
    recommends
        code != 10,
        code != 11,
{
    spec_content_size(spec_data_type(code))
}

impl ColumnDataType {
    /// The count of body bytes a column of this kind occupies.
    pub fn get_content_size(&self) -> (r: u64)
        ensures
            r == spec_content_size(*self),
    {
        match self {
            ColumnDataType::Null => 0,
            ColumnDataType::EightBit => 1,
            ColumnDataType::SixteenBit => 2,
            ColumnDataType::TwentyFourBit => 3,
            ColumnDataType::ThirtyTwoBit => 4,
            ColumnDataType::FortyEightBit => 6,
            ColumnDataType::SixtyFourBit => 8,
            ColumnDataType::Float => 8,
            ColumnDataType::IntegerZero => 0,
            ColumnDataType::IntegerOne => 0,
            ColumnDataType::Text(size) => *size,
            ColumnDataType::Blob(size) => *size,
        }
    }
}

/// Classifies a serial type code.  The reserved codes ten and eleven select
/// no kind; callers refuse them before asking.
pub fn get_data_type(coltype: u64) -> (r: ColumnDataType)
    requires
        coltype != 10,
        coltype != 11,
    ensures
        r == spec_data_type(coltype as nat),
{
    if coltype == 0 {
        ColumnDataType::Null
    } else if coltype == 1 {
        ColumnDataType::EightBit
    } else if coltype == 2 {
        ColumnDataType::SixteenBit
    } else if coltype == 3 {
        ColumnDataType::TwentyFourBit
    } else if coltype == 4 {
        ColumnDataType::ThirtyTwoBit
    } else if coltype == 5 {
        ColumnDataType::FortyEightBit
    } else if coltype == 6 {
        ColumnDataType::SixtyFourBit
    } else if coltype == 7 {
        ColumnDataType::Float
    } else if coltype == 8 {
        ColumnDataType::IntegerZero
    } else if coltype == 9 {
        ColumnDataType::IntegerOne
    } else if coltype % 2 == 0 {
        ColumnDataType::Blob((coltype - 12) / 2)
    } else {
        ColumnDataType::Text((coltype - 13) / 2)
    }
}

/// A decoded column value: the null value, a signed integer, or text.
#[derive(Debug, Clone, PartialEq, Eq)]
pub enum Value {
    Null,
    Int(i64),
    Text(String),
}

/// The mathematical shape of a decoded column value.
pub enum ValueModel {
    Null,
    Int(int),
    Text(Seq<char>),
}

impl View for Value {
    type V = ValueModel;

    open spec fn view(&self) -> ValueModel {
        match self {
            Value::Null => ValueModel::Null,
            Value::Int(i) => ValueModel::Int(*i as int),
            Value::Text(s) => ValueModel::Text(s@),
        }
    }
}

impl DeepView for Value {
    type V = ValueModel;

    open spec fn deep_view(&self) -> ValueModel {
        self.view()
    }
}

/// Whether column position `i` is among the requested indexes.
pub open spec fn wanted_contains(wanted: Seq<usize>, i: int) -> bool {
    exists|k: int| 0 <= k < wanted.len() && wanted[k] == i
}

/// Whether column position `i` is among the requested indexes.
fn contains_index(indexes: &Vec<usize>, i: usize) -> (r: bool)
    ensures
        r == wanted_contains(indexes@, i as int),
{
    let mut k: usize = 0;
    while k < indexes.len()
        invariant
            k <= indexes@.len(),
            forall|j: int| 0 <= j < k ==> indexes@[j] != i,
        decreases indexes@.len() - k,
    {
        if indexes[k] == i {
            proof {
                assert(indexes@[k as int] == i as int);
            }
            return true;
        }
        k = k + 1;
    }
    false
}

/// The serial types read from `bytes`: one varint per column, consumed
/// until a byte budget is exactly spent.  A varint that would cross the
/// budget's edge, or a budget that outruns the bytes, is a fault.
pub open spec fn spec_serials(bytes: Seq<u8>, budget: int) -> Result<Seq<nat>, DbError>
    decreases budget,
    via spec_serials_decreases
{
    if budget <= 0 {
        if budget == 0 {
            Ok(Seq::empty())
        } else {
            Err(DbError::CorruptPage)
        }
    } else {
        match varint_decode(bytes) {
            None => Err(DbError::MalformedVarint),
            Some(p) => if p.1 > budget {
                Err(DbError::CorruptPage)
            } else {
                match spec_serials(bytes.skip(p.1 as int), budget - p.1) {
                    Ok(rest) => Ok(seq![p.0] + rest),
                    Err(e) => Err(e),
                }
            },
        }
    }
}

#[via_fn]
proof fn spec_serials_decreases(bytes: Seq<u8>, budget: int) {
    if budget > 0 {
        lemma_varint_decode_props(bytes);
    }
}

/// The serial types of the cell at hand and the offset where its column
/// bodies begin: the cell's payload length, rowid, and header length are
/// read as varints, and the rest of the header holds the types.
pub open spec fn spec_record_serials(cell: Seq<u8>) -> Result<(Seq<nat>, int), DbError> {
    match varint_decode(cell) {
        None => Err(DbError::MalformedVarint),
        Some(p1) => match varint_decode(cell.skip(p1.1 as int)) {
            None => Err(DbError::MalformedVarint),
            Some(p2) => match varint_decode(cell.skip((p1.1 + p2.1) as int)) {
                None => Err(DbError::MalformedVarint),
                Some(p3) => if p3.0 < p3.1 {
                    Err(DbError::CorruptPage)
                } else {
                    match spec_serials(
                        cell.skip((p1.1 + p2.1 + p3.1) as int),
                        p3.0 - p3.1,
                    ) {
                        Ok(types) => Ok((types, (p1.1 + p2.1 + p3.0) as int)),
                        Err(e) => Err(e),
                    }
                },
            },
        },
    }
}

/// The value of the column of serial type `code` whose body begins at
/// `cursor`: the null value, the constant zero or one, a signed big-endian
/// integer, or lossily decoded text.  Float, blob, and reserved codes are
/// not decoded, and a body that runs past the cell is a fault.
pub open spec fn spec_column_value_at(cell: Seq<u8>, code: nat, cursor: int) -> Result<
    ValueModel,
    DbError,
> {
    let w = spec_width(code) as int;
    if code == 0 {
        Ok(ValueModel::Null)
    } else if code == 8 {
        Ok(ValueModel::Int(0))
    } else if code == 9 {
        Ok(ValueModel::Int(1))
    } else if 1 <= code <= 6 {
        if cursor + w <= cell.len() {
            Ok(ValueModel::Int(be_sint(cell.subrange(cursor, cursor + w))))
        } else {
            Err(DbError::CorruptPage)
        }
    } else if code >= 13 && code % 2 == 1 {
        if cursor + w <= cell.len() {
            Ok(ValueModel::Text(utf8_lossy(cell.subrange(cursor, cursor + w))))
        } else {
            Err(DbError::CorruptPage)
        }
    } else {
        Err(DbError::UnsupportedColumnType)
    }
}

/// The requested columns of a cell from position `i` on, with the body
/// cursor at `cursor`: every column advances the cursor by its width, and
/// the requested ones are materialized, in file order.
pub open spec fn spec_columns(
    cell: Seq<u8>,
    types: Seq<nat>,
    wanted: Seq<usize>,
    i: int,
    cursor: int,
) -> Result<Seq<ValueModel>, DbError>
    decreases types.len() - i,
{
    if i < 0 || i >= types.len() {
        Ok(Seq::empty())
    } else {
        let code = types[i];
        if code == 10 || code == 11 {
            Err(DbError::UnsupportedColumnType)
        } else {
            let w = spec_width(code) as int;
            if wanted_contains(wanted, i) {
                match spec_column_value_at(cell, code, cursor) {
                    Err(e) => Err(e),
                    Ok(v) => match spec_columns(cell, types, wanted, i + 1, cursor + w) {
                        Err(e) => Err(e),
                        Ok(vs) => Ok(seq![v] + vs),
                    },
                }
            } else {
                spec_columns(cell, types, wanted, i + 1, cursor + w)
            }
        }
    }
}

/// The requested columns of one whole cell, in file order.
pub open spec fn spec_row(cell: Seq<u8>, wanted: Seq<usize>) -> Result<Seq<ValueModel>, DbError> {
    match spec_record_serials(cell) {
        Err(e) => Err(e),
        Ok(ts) => spec_columns(cell, ts.0, wanted, 0, ts.1),
    }
}

/// The column walk asks of a request only which positions it contains, so
/// two requests containing the same positions decode alike.
proof fn lemma_columns_ignore_request_order(
    cell: Seq<u8>,
    types: Seq<nat>,
    w1: Seq<usize>,
    w2: Seq<usize>,
    i: int,
    cursor: int,
)
    requires
        forall|k: int| #[trigger] wanted_contains(w1, k) == wanted_contains(w2, k),
    ensures
        spec_columns(cell, types, w1, i, cursor) == spec_columns(cell, types, w2, i, cursor),
    decreases types.len() - i,
{
    if 0 <= i < types.len() {
        let code = types[i];
        if !(code == 10 || code == 11) {
            lemma_columns_ignore_request_order(
                cell,
                types,
                w1,
                w2,
                i + 1,
                cursor + spec_width(code),
            );
        }
    }
}

/// Projection ignores request order: two requests that contain the same
/// column positions — in any order, with any repetitions — decode a cell to
/// the same row, the requested values standing in file-declared order.
pub proof fn lemma_row_ignores_request_order(cell: Seq<u8>, w1: Seq<usize>, w2: Seq<usize>)
    requires
        forall|k: int| #[trigger] wanted_contains(w1, k) == wanted_contains(w2, k),
    ensures
        spec_row(cell, w1) == spec_row(cell, w2),
{
    match spec_record_serials(cell) {
        Err(_) => {},
        Ok(ts) => {
            lemma_columns_ignore_request_order(cell, ts.0, w1, w2, 0, ts.1);
        },
    }
}

/// Reads a cell's serial types and the offset where its column bodies
/// begin.
#[verifier::loop_isolation(false)]
pub(crate) fn read_record_serials(cell: &[u8]) -> (r: Result<(Vec<u64>, u128), DbError>)
    ensures
        (match r {
            Ok(p) => spec_record_serials(cell@) == Ok::<(Seq<nat>, int), DbError>(
                (p.0@.map_values(|t: u64| t as nat), p.1 as int),
            ) && p.1 <= cell@.len() + 0xffff_ffff_ffff_ffff,
            Err(e) => spec_record_serials(cell@) == Err::<(Seq<nat>, int), DbError>(e),
        }),
{
    let clen: usize = cell.len();
    let (_payload_len, c1) = match parse_varint(cell) {
        Ok(p) => p,
        Err(e) => {
            return Err(e);
        },
    };
    let rest1 = vstd::slice::slice_subrange(cell, c1, clen);
    proof {
        assert(rest1@ =~= cell@.skip(c1 as int));
    }
    let (_rowid, c2) = match parse_varint(rest1) {
        Ok(p) => p,
        Err(e) => {
            return Err(e);
        },
    };
    let rest2 = vstd::slice::slice_subrange(cell, c1 + c2, clen);
    proof {
        assert(rest2@ =~= cell@.skip((c1 + c2) as int));
    }
    let (header_len, c3) = match parse_varint(rest2) {
        Ok(p) => p,
        Err(e) => {
            return Err(e);
        },
    };
    if header_len < c3 as u64 {
        return Err(DbError::CorruptPage);
    }
    let ghost budget0 = (header_len - c3) as int;
    let start: usize = c1 + c2 + c3;
    let mut budget: u64 = header_len - c3 as u64;
    let mut cur: usize = start;
    let mut types: Vec<u64> = Vec::new();
    proof {
        assert(types@.map_values(|t: u64| t as nat) =~= Seq::<nat>::empty());
        assert(Seq::<nat>::empty() + spec_serials(cell@.skip(start as int), budget0)->Ok_0
            =~= spec_serials(cell@.skip(start as int), budget0)->Ok_0);
    }
    while budget > 0
        invariant
            start <= cur <= cell@.len(),
            cell@.len() == clen,
            (match spec_serials(cell@.skip(cur as int), budget as int) {
                Ok(rest) => spec_serials(cell@.skip(start as int), budget0) == Ok::<
                    Seq<nat>,
                    DbError,
                >(types@.map_values(|t: u64| t as nat) + rest),
                Err(e) => spec_serials(cell@.skip(start as int), budget0) == Err::<
                    Seq<nat>,
                    DbError,
                >(e),
            }),
        decreases budget,
    {
        let rest = vstd::slice::slice_subrange(cell, cur, clen);
        proof {
            assert(rest@ =~= cell@.skip(cur as int));
        }
        match parse_varint(rest) {
            Err(e) => {
                return Err(e);
            },
            Ok((t, c)) => {
                if (c as u64) > budget {
                    return Err(DbError::CorruptPage);
                }
                let ghost pre = types@.map_values(|t: u64| t as nat);
                let ghost sofar = spec_serials(cell@.skip(cur as int), budget as int);
                types.push(t);
                proof {
                    assert(cell@.skip(cur as int).skip(c as int) =~= cell@.skip(cur + c));
                    assert(types@.map_values(|t: u64| t as nat) =~= pre.push(t as nat));
                    match spec_serials(cell@.skip(cur + c), budget - c) {
                        Ok(rest2v) => {
                            assert(sofar == Ok::<Seq<nat>, DbError>(seq![t as nat] + rest2v));
                            assert(pre + (seq![t as nat] + rest2v) =~= pre.push(t as nat) + rest2v);
                        },
                        Err(_) => {},
                    }
                }
                cur = cur + c;
                budget = budget - c as u64;
            },
        }
    }
    proof {
        assert(spec_serials(cell@.skip(cur as int), 0) == Ok::<Seq<nat>, DbError>(Seq::empty()));
        assert(types@.map_values(|t: u64| t as nat) + Seq::<nat>::empty() =~= types@.map_values(
            |t: u64| t as nat,
        ));
    }
    let body: u128 = (c1 as u128) + (c2 as u128) + (header_len as u128);
    Ok((types, body))
}

/// Decodes the requested columns of one table-leaf cell, in file order.
#[verifier::loop_isolation(false)]
pub fn decode_row(cell: &[u8], column_indexes: &Vec<usize>) -> (r: Result<Vec<Value>, DbError>)
    ensures
        (match r {
            Ok(vals) => spec_row(cell@, column_indexes@) == Ok::<Seq<ValueModel>, DbError>(
                vals.deep_view(),
            ),
            Err(e) => spec_row(cell@, column_indexes@) == Err::<Seq<ValueModel>, DbError>(e),
        }),
{
    let clen: usize = cell.len();
    let (types, body) = match read_record_serials(cell) {
        Ok(p) => p,
        Err(e) => {
            return Err(e);
        },
    };
    let ghost stypes = types@.map_values(|t: u64| t as nat);
    let mut out: Vec<Value> = Vec::new();
    let mut cursor: u128 = body;
    let mut i: usize = 0;
    proof {
        assert(out.deep_view() =~= Seq::<ValueModel>::empty());
        match spec_columns(cell@, stypes, column_indexes@, 0, body as int) {
            Ok(rest) => {
                assert(Seq::<ValueModel>::empty() + rest =~= rest);
            },
            Err(_) => {},
        }
    }
    while i < types.len()
        invariant
            i <= types@.len(),
            stypes == types@.map_values(|t: u64| t as nat),
            cell@.len() == clen,
            cursor <= 0x2_0000_0000_0000_0000u128 + (i as u128) * 0x8000_0000_0000_0000u128,
            i <= 0xffff_ffff_ffff_ffffu128,
            (match spec_columns(cell@, stypes, column_indexes@, i as int, cursor as int) {
                Ok(rest) => spec_row(cell@, column_indexes@) == Ok::<Seq<ValueModel>, DbError>(
                    out.deep_view() + rest,
                ),
                Err(e) => spec_row(cell@, column_indexes@) == Err::<Seq<ValueModel>, DbError>(e),
            }),
        decreases types@.len() - i,
    {
        let code = types[i];
        proof {
            assert(stypes[i as int] == code as nat);
        }
        if code == 10 || code == 11 {
            return Err(DbError::UnsupportedColumnType);
        }
        let dt = get_data_type(code);
        let w = dt.get_content_size();
        proof {
            assert((w as nat) == spec_width(code as nat));
            assert(w <= 0x8000_0000_0000_0000u64);
        }
        let ghost pre = out.deep_view();
        if contains_index(column_indexes, i) {
            let is_const = match dt {
                ColumnDataType::Null => true,
                ColumnDataType::IntegerZero => true,
                ColumnDataType::IntegerOne => true,
                _ => false,
            };
            let is_int = match dt {
                ColumnDataType::EightBit => true,
                ColumnDataType::SixteenBit => true,
                ColumnDataType::TwentyFourBit => true,
                ColumnDataType::ThirtyTwoBit => true,
                ColumnDataType::FortyEightBit => true,
                ColumnDataType::SixtyFourBit => true,
                _ => false,
            };
            let is_text = match dt {
                ColumnDataType::Text(_) => true,
                _ => false,
            };
            if !is_const && !is_int && !is_text {
                return Err(DbError::UnsupportedColumnType);
            }
            let val = if is_const {
                match dt {
                    ColumnDataType::Null => Value::Null,
                    ColumnDataType::IntegerZero => Value::Int(0),
                    _ => Value::Int(1),
                }
            } else {
                if cursor + (w as u128) > clen as u128 {
                    return Err(DbError::CorruptPage);
                }
                let lo = cursor as usize;
                let hi = (cursor + w as u128) as usize;
                let body_slice = vstd::slice::slice_subrange(cell, lo, hi);
                proof {
                    assert(body_slice@ =~= cell@.subrange(
                        cursor as int,
                        cursor as int + spec_width(code as nat),
                    ));
                }
                if is_int {
                    Value::Int(parse_int_signed(body_slice))
                } else {
                    Value::Text(from_utf8_lossy(body_slice))
                }
            };
            proof {
                assert(Ok::<ValueModel, DbError>(val.deep_view()) == spec_column_value_at(
                    cell@,
                    code as nat,
                    cursor as int,
                ));
            }
            out.push(val);
            proof {
                assert(out.deep_view() =~= pre.push(val.deep_view()));
                match spec_columns(cell@, stypes, column_indexes@, i + 1, cursor + w) {
                    Ok(rest2v) => {
                        assert(pre + (seq![val.deep_view()] + rest2v) =~= pre.push(val.deep_view())
                            + rest2v);
                    },
                    Err(_) => {},
                }
            }
        }
        cursor = cursor + w as u128;
        i = i + 1;
    }
    proof {
        assert(out.deep_view() + Seq::<ValueModel>::empty() =~= out.deep_view());
    }
    Ok(out)
}

/// The rows of the cells from position `i` on of the cell pointer list
/// `addrs`: each cell's bytes run from its pointer to the next pointer, or
/// to the page's end for the last cell.
pub open spec fn spec_rows_from(
    page: Seq<u8>,
    addrs: Seq<usize>,
    wanted: Seq<usize>,
    i: int,
) -> Result<Seq<Seq<ValueModel>>, DbError>
    decreases addrs.len() - i,
{
    if i < 0 || i >= addrs.len() {
        Ok(Seq::empty())
    } else {
        let start = addrs[i] as int;
        let end = if i == addrs.len() - 1 {
            page.len() as int
        } else {
            addrs[i + 1] as int
        };
        if !(start <= end <= page.len()) {
            Err(DbError::CorruptPage)
        } else {
            match spec_row(page.subrange(start, end), wanted) {
                Err(e) => Err(e),
                Ok(row) => match spec_rows_from(page, addrs, wanted, i + 1) {
                    Err(e) => Err(e),
                    Ok(rest) => Ok(seq![row] + rest),
                },
            }
        }
    }
}

/// The rows of a whole table-leaf page, in logical cell order, projected to
/// the requested column positions.
pub open spec fn spec_table_rows(page: Seq<u8>, wanted: Seq<usize>) -> Result<
    Seq<Seq<ValueModel>>,
    DbError,
> {
    if !crate::page::spec_cell_array_fits(page, 0, 8) {
        Err(DbError::CorruptPage)
    } else {
        spec_rows_from(page, crate::page::spec_cell_addrs(page, 0, 8), wanted, 0)
    }
}

/// `lemma_row_ignores_request_order`, lifted over the cells from `i` on.
proof fn lemma_rows_from_ignore_request_order(
    page: Seq<u8>,
    addrs: Seq<usize>,
    w1: Seq<usize>,
    w2: Seq<usize>,
    i: int,
)
    requires
        forall|k: int| #[trigger] wanted_contains(w1, k) == wanted_contains(w2, k),
    ensures
        spec_rows_from(page, addrs, w1, i) == spec_rows_from(page, addrs, w2, i),
    decreases addrs.len() - i,
{
    if 0 <= i < addrs.len() {
        let start = addrs[i] as int;
        let end = if i == addrs.len() - 1 {
            page.len() as int
        } else {
            addrs[i + 1] as int
        };
        if start <= end <= page.len() {
            lemma_row_ignores_request_order(page.subrange(start, end), w1, w2);
            lemma_rows_from_ignore_request_order(page, addrs, w1, w2, i + 1);
        }
    }
}

/// Projection ignores request order over a whole page: two requests that
/// contain the same column positions yield the same rows.
pub proof fn lemma_table_rows_ignore_request_order(page: Seq<u8>, w1: Seq<usize>, w2: Seq<usize>)
    requires
        forall|k: int| #[trigger] wanted_contains(w1, k) == wanted_contains(w2, k),
    ensures
        spec_table_rows(page, w1) == spec_table_rows(page, w2),
{
    if crate::page::spec_cell_array_fits(page, 0, 8) {
        lemma_rows_from_ignore_request_order(
            page,
            crate::page::spec_cell_addrs(page, 0, 8),
            w1,
            w2,
            0,
        );
    }
}

/// Decodes every row of a table-leaf page, in logical cell order, keeping
/// of each row the requested column positions, in file order.
#[verifier::loop_isolation(false)]
pub fn get_table_columns_data(table_page: &Vec<u8>, column_indexes: &Vec<usize>) -> (r: Result<
    Vec<Vec<Value>>,
    DbError,
>)
    ensures
        (match r {
            Ok(rows) => spec_table_rows(table_page@, column_indexes@) == Ok::<
                Seq<Seq<ValueModel>>,
                DbError,
            >(rows.deep_view()),
            Err(e) => spec_table_rows(table_page@, column_indexes@) == Err::<
                Seq<Seq<ValueModel>>,
                DbError,
            >(e),
        }),
{
    let addrs = match crate::page::get_cell_addrs(table_page, 8) {
        Ok(a) => a,
        Err(e) => {
            return Err(e);
        },
    };
    let mut rows: Vec<Vec<Value>> = Vec::new();
    let mut i: usize = 0;
    proof {
        assert(rows.deep_view() =~= Seq::<Seq<ValueModel>>::empty());
        match spec_rows_from(table_page@, addrs@, column_indexes@, 0) {
            Ok(rest) => {
                assert(Seq::<Seq<ValueModel>>::empty() + rest =~= rest);
            },
            Err(_) => {},
        }
    }
    while i < addrs.len()
        invariant
            i <= addrs@.len(),
            (match spec_rows_from(table_page@, addrs@, column_indexes@, i as int) {
                Ok(rest) => spec_rows_from(table_page@, addrs@, column_indexes@, 0) == Ok::<
                    Seq<Seq<ValueModel>>,
                    DbError,
                >(rows.deep_view() + rest),
                Err(e) => spec_rows_from(table_page@, addrs@, column_indexes@, 0) == Err::<
                    Seq<Seq<ValueModel>>,
                    DbError,
                >(e),
            }),
        decreases addrs@.len() - i,
    {
        let start = addrs[i];
        let end = if i == addrs.len() - 1 {
            table_page.len()
        } else {
            addrs[i + 1]
        };
        if start > end || end > table_page.len() {
            return Err(DbError::CorruptPage);
        }
        let cell = vstd::slice::slice_subrange(table_page.as_slice(), start, end);
        proof {
            assert(cell@ =~= table_page@.subrange(start as int, end as int));
        }
        let ghost pre = rows.deep_view();
        match decode_row(cell, column_indexes) {
            Err(e) => {
                return Err(e);
            },
            Ok(row) => {
                let ghost rowv = row.deep_view();
                rows.push(row);
                proof {
                    assert(rows.deep_view() =~= pre.push(rowv));
                    match spec_rows_from(table_page@, addrs@, column_indexes@, i + 1) {
                        Ok(rest2v) => {
                            assert(pre + (seq![rowv] + rest2v) =~= pre.push(rowv) + rest2v);
                        },
                        Err(_) => {},
                    }
                }
            },
        }
        i = i + 1;
    }
    proof {
        assert(rows.deep_view() + Seq::<Seq<ValueModel>>::empty() =~= rows.deep_view());
    }
    Ok(rows)
}

} // verus!
