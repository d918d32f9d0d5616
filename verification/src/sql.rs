//! Declared column names, read from a table's creation statement.
//!
//! The catalog stores each table's creation statement verbatim; the
//! declared column list is read off it so that a caller can resolve column
//! names to positions.

use vstd::prelude::*;

use crate::catalog::parse_first_page;
use crate::catalog::spec_catalog_of_file;
use crate::catalog::spec_lookup;
use crate::errors::DbError;

verus! {

/// The declared column names of a creation statement, in order, or nothing
/// when the statement does not parse.
pub uninterp spec fn create_table_columns(sql: Seq<char>) -> Option<Seq<Seq<char>>>;

/// Relies on sqlparser's `Parser::parse_sql` with the generic dialect: what
/// a statement parses to is a function of its text alone.  The declared
/// column names are read off the parsed table creation, in order; a text
/// whose first statement is not a table creation yields no names.
#[verifier::external_body]
fn get_columns_from_create_table_sql(sql: &String) -> (r: Result<Vec<String>, DbError>)
    ensures
        (match r {
            Ok(cols) => create_table_columns(sql@) == Some(cols.deep_view()),
            Err(e) => e == DbError::SqlParseError && create_table_columns(sql@) is None,
        }),
{
    let dialect = sqlparser::dialect::GenericDialect {};
    match sqlparser::parser::Parser::parse_sql(&dialect, sql) {
        Ok(statements) => {
            let mut columns = Vec::new();
            if let Some(sqlparser::ast::Statement::CreateTable(ct)) = statements.into_iter().next()
            {
                for column in ct.columns {
                    columns.push(column.name.value);
                }
            }
            Ok(columns)
        },
        Err(_) => Err(DbError::SqlParseError),
    }
}

/// The declared column names of the named table.
pub open spec fn spec_get_columns(file: Seq<u8>, name: Seq<char>) -> Result<
    Seq<Seq<char>>,
    DbError,
> {
    match spec_catalog_of_file(file) {
        Err(e) => Err(e),
        Ok(entries) => match spec_lookup(entries, name) {
            None => Err(DbError::TableNotFound),
            Some(t) => match create_table_columns(t.sql) {
                None => Err(DbError::SqlParseError),
                Some(cols) => Ok(cols),
            },
        },
    }
}

/// Lists the declared column names of the named table, reading its
/// creation statement from the catalog.
pub fn get_columns(file: &Vec<u8>, table_name: &String) -> (r: Result<Vec<String>, DbError>)
    ensures
        (match r {
            Ok(cols) => spec_get_columns(file@, table_name@) == Ok::<Seq<Seq<char>>, DbError>(
                cols.deep_view(),
            ),
            Err(e) => spec_get_columns(file@, table_name@) == Err::<Seq<Seq<char>>, DbError>(e),
        }),
{
    let parsed = match parse_first_page(file) {
        Ok(p) => p,
        Err(e) => {
            return Err(e);
        },
    };
    let entry = match parsed.2.catalog_lookup(table_name) {
        Ok(t) => t,
        Err(e) => {
            return Err(e);
        },
    };
    get_columns_from_create_table_sql(&entry.sql)
}

/// Finds the position of a requested column name in the declared list; a
/// name that is not declared is `ColumnNotFound`.
pub fn column_index(columns: &Vec<String>, name: &String) -> (r: Result<usize, DbError>)
    ensures
        (match r {
            Ok(i) => i < columns@.len() && columns.deep_view()[i as int] == name@ && (forall|j: int|
                0 <= j < i ==> columns.deep_view()[j] != name@),
            Err(e) => e == DbError::ColumnNotFound && (forall|j: int|
                0 <= j < columns@.len() ==> columns.deep_view()[j] != name@),
        }),
{
    let mut i: usize = 0;
    while i < columns.len()
        invariant
            i <= columns@.len(),
            forall|j: int| 0 <= j < i ==> columns.deep_view()[j] != name@,
        decreases columns@.len() - i,
    {
        if columns[i] == *name {
            proof {
                assert(columns.deep_view()[i as int] == name@);
            }
            return Ok(i);
        }
        proof {
            assert(columns.deep_view()[i as int] != name@);
        }
        i = i + 1;
    }
    Err(DbError::ColumnNotFound)
}

} // verus!
