//! A small tabular data store: named tables with typed columns, a command
//! language in the manner of SQL to create, fill and query them, and
//! snapshots of the whole store as bytes.
//!
//! The catalog is [`Database`]; [`sql::parse_sql`] turns a line of text into
//! a command, [`executor::execute`] carries a command out, and
//! [`repl::respond`] answers one line of a session. File handling is left to
//! the caller: [`Database::load`] and [`Database::save`] deal in bytes.

pub mod catalog;
pub mod database;
pub mod error;
pub mod executor;
pub mod number;
pub mod repl;
pub mod schema;
pub mod snapshot;
pub mod sql;
pub mod text;

pub use database::Database;
pub use error::{DbError, SnapshotError};
pub use schema::{Column, DataType, Table};
