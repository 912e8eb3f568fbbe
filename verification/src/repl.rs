use crate::database::Database;
use crate::error::{DbError, DbErrorView};
use crate::executor::{execute, run, Outcome, OutcomeView};
use crate::schema::TableView;
use crate::sql::{lowercased, parse_command, parse_sql, CommandView, SqlCommand};
use crate::text::{chars_of, join, span_is, trim, trim_span};
use vstd::prelude::*;
use vstd::string::StringExecFns;

verus! {

/// What the session does in answer to one line of input: the lines to show,
/// whether the database is to be saved, and whether the session ends.
#[derive(Debug, Clone, PartialEq, Eq)]
pub struct Reply {
    pub lines: Vec<String>,
    pub save: bool,
    pub quit: bool,
}

/// The mathematical value of a [`Reply`].
pub struct ReplyView {
    pub lines: Seq<Seq<char>>,
    pub save: bool,
    pub quit: bool,
}

impl View for Reply {
    type V = ReplyView;

    open spec fn view(&self) -> ReplyView {
        ReplyView { lines: self.lines.deep_view(), save: self.save, quit: self.quit }
    }
}

/// The lines that show the rows of a query: one line for each row, or a
/// line that says that there are none.
pub open spec fn rows_lines(rows: Seq<Seq<Seq<char>>>) -> Seq<Seq<char>> {
    if rows.len() == 0 {
        seq!["(no rows)"@]
    } else {
        Seq::new(rows.len(), |i: int| join(rows[i], " | "@))
    }
}

/// The lines that show what a command gave.
pub open spec fn outcome_lines(outcome: OutcomeView) -> Seq<Seq<char>> {
    match outcome {
        OutcomeView::Created { table } => seq!["Table '"@ + table + "' created"@],
        OutcomeView::Inserted => seq!["OK"@],
        OutcomeView::Rows { rows } => rows_lines(rows),
    }
}

/// The line that shows why a command was refused.
pub open spec fn error_lines(error: DbErrorView) -> Seq<Seq<char>> {
    seq!["Error: "@ + error.message()]
}

/// Whether a command is of a kind that changes the database. The database
/// is saved after each such command, refused or not, and at the end of the
/// session.
pub open spec fn changes(command: CommandView) -> bool {
    !(command is Select)
}

/// The catalog after a parsed line, and the reply to it. A line that spells
/// no command is answered with a parse error and changes nothing.
pub open spec fn answer_to(tables: Seq<TableView>, command: Option<CommandView>) -> (
    Seq<TableView>,
    ReplyView,
) {
    match command {
        None => (tables, ReplyView { lines: seq!["Parse error"@], save: false, quit: false }),
        Some(c) => match run(tables, c) {
            Ok((after, outcome)) => (
                after,
                ReplyView { lines: outcome_lines(outcome), save: changes(c), quit: false },
            ),
            Err(e) => (tables, ReplyView { lines: error_lines(e), save: changes(c), quit: false }),
        },
    }
}

/// The catalog after a line of input, and the reply to it. The line is
/// taken without the whitespace around it; `exit` ends the session.
pub open spec fn respond_to(tables: Seq<TableView>, input: Seq<char>) -> (
    Seq<TableView>,
    ReplyView,
) {
    let line = trim(input);
    if line == "exit"@ {
        (tables, ReplyView { lines: Seq::empty(), save: true, quit: true })
    } else {
        answer_to(tables, parse_command(lowercased(line)))
    }
}

/// Writes the values of a row on one line.
fn join_row(row: &Vec<String>) -> (line: String)
    ensures
        line@ == join(row.deep_view(), " | "@),
{
    let mut line = String::new();
    let mut i: usize = 0;
    while i < row.len()
        invariant
            i <= row.len(),
            line@ == join(row.deep_view().take(i as int), " | "@),
        decreases row.len() - i,
    {
        proof {
            let parts = row.deep_view().take(i + 1);
            assert(parts.drop_last() =~= row.deep_view().take(i as int));
            assert(parts.last() == row[i as int]@);
            if i == 0 {
                assert(Seq::<char>::empty() + row[0]@ =~= row[0]@);
            }
        }
        if i > 0 {
            line.append(" | ");
        }
        line.append(row[i].as_str());
        i += 1;
    }
    proof {
        assert(row.deep_view().take(i as int) =~= row.deep_view());
    }
    line
}

/// Writes the rows of a query as lines.
fn show_rows(rows: &Vec<Vec<String>>) -> (lines: Vec<String>)
    ensures
        lines.deep_view() == rows_lines(rows.deep_view()),
{
    let mut lines: Vec<String> = Vec::new();
    if rows.len() == 0 {
        lines.push(String::from_str("(no rows)"));
        proof {
            assert(lines.deep_view() =~= seq!["(no rows)"@]);
        }
        return lines;
    }
    let mut i: usize = 0;
    while i < rows.len()
        invariant
            i <= rows.len(),
            lines.len() == i,
            forall|k: int|
                0 <= k < i ==> (#[trigger] lines[k])@ == join(rows.deep_view()[k], " | "@),
        decreases rows.len() - i,
    {
        lines.push(join_row(&rows[i]));
        i += 1;
    }
    proof {
        assert(lines.deep_view() =~= rows_lines(rows.deep_view()));
    }
    lines
}

/// Writes what a command gave as lines.
fn show_outcome(outcome: &Outcome) -> (lines: Vec<String>)
    ensures
        lines.deep_view() == outcome_lines(outcome@),
{
    match outcome {
        Outcome::Created { table } => {
            let mut line = String::from_str("Table '");
            line.append(table.as_str());
            line.append("' created");
            let mut lines: Vec<String> = Vec::new();
            lines.push(line);
            proof {
                assert(lines.deep_view() =~= outcome_lines(outcome@));
            }
            lines
        },
        Outcome::Inserted => {
            let mut lines: Vec<String> = Vec::new();
            lines.push(String::from_str("OK"));
            proof {
                assert(lines.deep_view() =~= outcome_lines(outcome@));
            }
            lines
        },
        Outcome::Rows { rows } => show_rows(rows),
    }
}

/// Writes why a command was refused as a line.
fn show_error(error: &DbError) -> (lines: Vec<String>)
    ensures
        lines.deep_view() == error_lines(error@),
{
    let mut line = String::from_str("Error: ");
    line.append(error.message().as_str());
    let mut lines: Vec<String> = Vec::new();
    lines.push(line);
    proof {
        assert(lines.deep_view() =~= error_lines(error@));
    }
    lines
}

/// Whether a command is of a kind that changes the database.
fn is_change(command: &SqlCommand) -> (b: bool)
    ensures
        b == changes(command@),
{
    match command {
        SqlCommand::Select { .. } => false,
        _ => true,
    }
}

/// Answers a parsed line: carries the command out, if there is one, and
/// says what to show and whether to save.
pub fn answer(db: &mut Database, command: Option<SqlCommand>) -> (reply: Reply)
    ensures
        (final(db)@, reply@) == answer_to(
            old(db)@,
            match command {
                Some(c) => Some(c@),
                None => None,
            },
        ),
{
    match command {
        None => {
            let mut lines: Vec<String> = Vec::new();
            lines.push(String::from_str("Parse error"));
            proof {
                assert(lines.deep_view() =~= seq!["Parse error"@]);
            }
            Reply { lines, save: false, quit: false }
        },
        Some(command) => {
            let save = is_change(&command);
            let lines = match execute(db, command) {
                Ok(outcome) => show_outcome(&outcome),
                Err(error) => show_error(&error),
            };
            Reply { lines, save, quit: false }
        },
    }
}

/// Answers one line of input.
///
/// The line is taken without the whitespace around it. `exit` ends the
/// session, with a last save. Any other line is parsed, and the command it
/// spells is carried out.
pub fn respond(db: &mut Database, input: &str) -> (reply: Reply)
    ensures
        (final(db)@, reply@) == respond_to(old(db)@, input@),
{
    let chars = chars_of(input);
    let part = trim_span(&chars, 0, chars.len());
    proof {
        assert(chars@.subrange(0, chars@.len() as int) =~= chars@);
    }
    if span_is(&chars, part, "exit") {
        let lines: Vec<String> = Vec::new();
        proof {
            assert(lines.deep_view() =~= Seq::<Seq<char>>::empty());
        }
        Reply { lines, save: true, quit: true }
    } else {
        let line = input.substring_char(part.start, part.end);
        answer(db, parse_sql(line))
    }
}

} // verus!
