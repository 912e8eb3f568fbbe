use crate::catalog;
use crate::database::Database;
use crate::error::{DbError, DbErrorView};
use crate::schema::TableView;
use crate::sql::{CommandView, SqlCommand};
use vstd::prelude::*;

verus! {

/// What a command gave that was carried out.
#[derive(Debug, Clone, PartialEq, Eq)]
pub enum Outcome {
    /// A table was created.
    Created { table: String },
    /// A row was inserted.
    Inserted,
    /// A query found these rows.
    Rows { rows: Vec<Vec<String>> },
}

/// The mathematical value of an [`Outcome`].
pub enum OutcomeView {
    Created { table: Seq<char> },
    Inserted,
    Rows { rows: Seq<Seq<Seq<char>>> },
}

impl View for Outcome {
    type V = OutcomeView;

    open spec fn view(&self) -> OutcomeView {
        match *self {
            Outcome::Created { table } => OutcomeView::Created { table: table@ },
            Outcome::Inserted => OutcomeView::Inserted,
            Outcome::Rows { rows } => OutcomeView::Rows { rows: rows.deep_view() },
        }
    }
}

/// The catalog after a command and what the command gave, or why it was
/// refused: each command is the catalog operation of its name.
pub open spec fn run(tables: Seq<TableView>, command: CommandView) -> Result<
    (Seq<TableView>, OutcomeView),
    DbErrorView,
> {
    match command {
        CommandView::CreateTable { name, columns } => match catalog::create_table(
            tables,
            name,
            columns,
        ) {
            Ok(after) => Ok((after, OutcomeView::Created { table: name })),
            Err(e) => Err(e),
        },
        CommandView::Insert { table, values } => match catalog::insert_into(tables, table, values) {
            Ok(after) => Ok((after, OutcomeView::Inserted)),
            Err(e) => Err(e),
        },
        CommandView::Select { table, columns, where_clause } => match catalog::select_from(
            tables,
            table,
            columns,
            where_clause,
        ) {
            Ok(rows) => Ok((tables, OutcomeView::Rows { rows })),
            Err(e) => Err(e),
        },
    }
}

/// Carries a command out on a database.
///
/// The command is handed to the catalog operation of its name, whose result
/// is passed on as it is. A refused command changes nothing.
pub fn execute(db: &mut Database, command: SqlCommand) -> (done: Result<Outcome, DbError>)
    ensures
        match run(old(db)@, command@) {
            Ok((after, outcome)) => done matches Ok(got) && got@ == outcome && final(db)@ == after,
            Err(e) => done matches Err(err) && err@ == e && final(db)@ == old(db)@,
        },
{
    match command {
        SqlCommand::CreateTable { name, columns } => {
            match db.create_table(name.as_str(), columns) {
                Ok(()) => Ok(Outcome::Created { table: name }),
                Err(e) => Err(e),
            }
        },
        SqlCommand::Insert { table, values } => {
            match db.insert_into(table.as_str(), values) {
                Ok(()) => Ok(Outcome::Inserted),
                Err(e) => Err(e),
            }
        },
        SqlCommand::Select { table, columns, where_clause } => {
            let wanted = columns.as_slice();
            proof {
                assert(wanted.deep_view() =~= columns.deep_view());
            }
            match db.select_from(table.as_str(), wanted, where_clause) {
                Ok(rows) => Ok(Outcome::Rows { rows }),
                Err(e) => Err(e),
            }
        },
    }
}

} // verus!
