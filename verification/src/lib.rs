//! Read-only decoder for a page-oriented database file format.
//!
//! The library interprets the 100-byte file header, walks a one-level table
//! B-tree, and decodes row records into typed column values.  All byte-level
//! interpretation is verified; file input and output rendering live outside.

pub mod btree;
pub mod bytes;
pub mod catalog;
pub mod errors;
pub mod page;
pub mod record;
pub mod sql;
pub mod text;
pub mod varint;

pub use errors::DbError;
