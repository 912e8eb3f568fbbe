use crate::number::{decimal, decimal_text};
use vstd::prelude::*;
use vstd::string::StringExecFns;

verus! {

/// Why a catalog operation was refused. A refused operation leaves the
/// database as it was.
#[derive(Debug, Clone, PartialEq, Eq)]
pub enum DbError {
    /// A table of that name is already there.
    TableExists { table: String },
    /// No table has that name.
    TableNotFound { table: String },
    /// The table has no column of that name.
    ColumnNotFound { column: String },
    /// A row was offered with the wrong number of values.
    ArityMismatch { expected: usize, actual: usize },
    /// A value offered for an integer column is no integer literal.
    TypeMismatch { value: String, column: String },
}

/// The mathematical value of a [`DbError`].
pub enum DbErrorView {
    TableExists { table: Seq<char> },
    TableNotFound { table: Seq<char> },
    ColumnNotFound { column: Seq<char> },
    ArityMismatch { expected: nat, actual: nat },
    TypeMismatch { value: Seq<char>, column: Seq<char> },
}

impl View for DbError {
    type V = DbErrorView;

    open spec fn view(&self) -> DbErrorView {
        match *self {
            DbError::TableExists { table } => DbErrorView::TableExists { table: table@ },
            DbError::TableNotFound { table } => DbErrorView::TableNotFound { table: table@ },
            DbError::ColumnNotFound { column } => DbErrorView::ColumnNotFound { column: column@ },
            DbError::ArityMismatch { expected, actual } => DbErrorView::ArityMismatch {
                expected: expected as nat,
                actual: actual as nat,
            },
            DbError::TypeMismatch { value, column } => DbErrorView::TypeMismatch {
                value: value@,
                column: column@,
            },
        }
    }
}

impl DbErrorView {
    /// The error in words.
    pub open spec fn message(self) -> Seq<char> {
        match self {
            DbErrorView::TableExists { table } => "Table "@ + table + " already exists"@,
            DbErrorView::TableNotFound { table } => "Table '"@ + table + "' not found"@,
            DbErrorView::ColumnNotFound { column } => "Column '"@ + column + "' not found"@,
            DbErrorView::ArityMismatch { expected, actual } => "Expected "@ + decimal(expected)
                + " values. Got "@ + decimal(actual),
            DbErrorView::TypeMismatch { value, column } => "Value '"@ + value
                + "' is not INTEGER for column "@ + column,
        }
    }
}

impl DbError {
    /// Says in words what went wrong, naming the table, column or value.
    pub fn message(&self) -> (text: String)
        ensures
            text@ == self@.message(),
    {
        match self {
            DbError::TableExists { table } => {
                let mut text = String::from_str("Table ");
                text.append(table.as_str());
                text.append(" already exists");
                text
            },
            DbError::TableNotFound { table } => {
                let mut text = String::from_str("Table '");
                text.append(table.as_str());
                text.append("' not found");
                text
            },
            DbError::ColumnNotFound { column } => {
                let mut text = String::from_str("Column '");
                text.append(column.as_str());
                text.append("' not found");
                text
            },
            DbError::ArityMismatch { expected, actual } => {
                let mut text = String::from_str("Expected ");
                text.append(decimal_text(*expected).as_str());
                text.append(" values. Got ");
                text.append(decimal_text(*actual).as_str());
                text
            },
            DbError::TypeMismatch { value, column } => {
                let mut text = String::from_str("Value '");
                text.append(value.as_str());
                text.append("' is not INTEGER for column ");
                text.append(column.as_str());
                text
            },
        }
    }
}

/// Why a snapshot could not be written or read.
#[derive(Debug, Clone, Copy, PartialEq, Eq, Structural)]
pub enum SnapshotError {
    /// The codec did not encode the database.
    Encoding,
    /// The bytes are not the snapshot of any database.
    Corrupt,
}

} // verus!
