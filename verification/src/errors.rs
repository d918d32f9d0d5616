//! Error kinds reported by the decoder.

use vstd::prelude::*;

verus! {

/// Every way a decode can fail.  Each variant names one failure of the file
/// format or of a lookup; input and output failures are the caller's business
/// and have no variant here.
#[derive(Clone, Copy, Debug, PartialEq, Eq, Structural)]
pub enum DbError {
    /// A variable-length integer ran past the end of its buffer.
    MalformedVarint,
    /// The schema page does not have the fixed five-column record shape,
    /// a cell runs past its boundary, or two tables share a name.
    SchemaDecodeError,
    /// The requested table name is absent from the catalog.
    TableNotFound,
    /// The requested column name is absent from the declared column list.
    ColumnNotFound,
    /// A page's type byte is neither a table leaf nor a table interior.
    UnsupportedPageType,
    /// An interior page points at another interior page: trees deeper than
    /// one level of indirection are not supported.
    UnsupportedTreeDepth,
    /// A column's serial type (float, blob, or a reserved code) is not
    /// decoded by this library.
    UnsupportedColumnType,
    /// A creation statement in the schema could not be parsed.
    SqlParseError,
    /// A page number, cell pointer, or field offset falls outside the
    /// buffer that should contain it.
    CorruptPage,
}

} // verus!
