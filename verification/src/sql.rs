use crate::schema::{Column, ColumnView, DataType};
use crate::text::{
    chars_of, run_len, scan, span_is, span_text, spans_match, split, split_spans, trim, trim_span,
    unquote, word_spans, words, Span, Stop,
};
use vstd::prelude::*;

verus! {

/// A command of the language, ready to be run against a database.
#[derive(Debug, Clone, PartialEq, Eq)]
#[allow(inconsistent_fields)]
pub enum SqlCommand {
    Insert { table: String, values: Vec<String> },
    Select { table: String, columns: Vec<String>, where_clause: Option<(String, String)> },
    CreateTable { name: String, columns: Vec<Column> },
}

/// The mathematical value of a [`SqlCommand`].
#[allow(inconsistent_fields)]
pub enum CommandView {
    Insert { table: Seq<char>, values: Seq<Seq<char>> },
    Select {
        table: Seq<char>,
        columns: Seq<Seq<char>>,
        where_clause: Option<(Seq<char>, Seq<char>)>,
    },
    CreateTable { name: Seq<char>, columns: Seq<ColumnView> },
}

impl View for SqlCommand {
    type V = CommandView;

    open spec fn view(&self) -> CommandView {
        match *self {
            SqlCommand::Insert { table, values } => CommandView::Insert {
                table: table@,
                values: values.deep_view(),
            },
            SqlCommand::Select { table, columns, where_clause } => CommandView::Select {
                table: table@,
                columns: columns.deep_view(),
                where_clause: where_clause.deep_view(),
            },
            SqlCommand::CreateTable { name, columns } => CommandView::CreateTable {
                name: name@,
                columns: columns.deep_view(),
            },
        }
    }
}

/// The text of the one bracketed group of a line: what stands between the
/// first opening bracket and the first closing bracket after it, or the end
/// of the line where none follows. A line without an opening bracket has no
/// group.
pub open spec fn bracketed(s: Seq<char>) -> Option<Seq<char>> {
    let open = run_len(s, Stop::Char('(')) as int;
    if 0 <= open < s.len() {
        let rest = s.skip(open + 1);
        Some(rest.take(run_len(rest, Stop::Char(')')) as int))
    } else {
        None
    }
}

/// The column that one piece of a column list declares: its first word is
/// the name, its second the type. Further words are not looked at.
pub open spec fn column_def(piece: Seq<char>) -> Option<ColumnView> {
    let w = words(piece);
    if w.len() >= 2 && w[1] == "integer"@ {
        Some(ColumnView { name: w[0], data_type: DataType::Integer })
    } else if w.len() >= 2 && w[1] == "text"@ {
        Some(ColumnView { name: w[0], data_type: DataType::Text })
    } else {
        None
    }
}

/// The columns that the pieces of a column list declare, provided each
/// piece declares one.
pub open spec fn column_defs(pieces: Seq<Seq<char>>) -> Option<Seq<ColumnView>> {
    if forall|i: int| 0 <= i < pieces.len() ==> column_def(#[trigger] pieces[i]) is Some {
        Some(Seq::new(pieces.len(), |i: int| column_def(pieces[i]).unwrap()))
    } else {
        None
    }
}

/// The value that one piece of a value list stands for: the piece without
/// the whitespace around it, and without one quote at either end.
pub open spec fn literal(piece: Seq<char>) -> Seq<char> {
    unquote(trim(piece))
}

/// The values that the pieces of a value list stand for.
pub open spec fn literals(pieces: Seq<Seq<char>>) -> Seq<Seq<char>> {
    Seq::new(pieces.len(), |i: int| literal(pieces[i]))
}

/// `CREATE TABLE name`, with a bracketed column list or without one.
pub open spec fn parse_create(s: Seq<char>, w: Seq<Seq<char>>) -> Option<CommandView> {
    if w.len() >= 3 && w[1] == "table"@ {
        match bracketed(s) {
            None => Some(CommandView::CreateTable { name: w[2], columns: Seq::empty() }),
            Some(group) => match column_defs(split(group, ',')) {
                Some(columns) => Some(CommandView::CreateTable { name: w[2], columns }),
                None => None,
            },
        }
    } else {
        None
    }
}

/// `INSERT INTO name VALUES`, with a bracketed value list.
pub open spec fn parse_insert(s: Seq<char>, w: Seq<Seq<char>>) -> Option<CommandView> {
    if w.len() >= 4 && w[1] == "into"@ && w[3] == "values"@ {
        match bracketed(s) {
            Some(group) => Some(
                CommandView::Insert { table: w[2], values: literals(split(group, ',')) },
            ),
            None => None,
        }
    } else {
        None
    }
}

/// `SELECT columns FROM name`, with `WHERE column = value` or without it.
/// The column list is one word, cut at its commas.
pub open spec fn parse_select(w: Seq<Seq<char>>) -> Option<CommandView> {
    if w.len() >= 4 && w[2] == "from"@ {
        let columns = split(w[1], ',');
        if w.len() >= 5 && w[4] == "where"@ {
            if w.len() >= 8 && w[6] == "="@ {
                Some(
                    CommandView::Select { table: w[3], columns, where_clause: Some((w[5], w[7])) },
                )
            } else {
                None
            }
        } else {
            Some(CommandView::Select { table: w[3], columns, where_clause: None })
        }
    } else {
        None
    }
}

/// The command that a line spells, if it spells one. Keywords are matched
/// as they stand: the line is expected in lower case.
pub open spec fn parse_command(s: Seq<char>) -> Option<CommandView> {
    let w = words(s);
    if w.len() == 0 {
        None
    } else if w[0] == "create"@ {
        parse_create(s, w)
    } else if w[0] == "insert"@ {
        parse_insert(s, w)
    } else if w[0] == "select"@ {
        parse_select(w)
    } else {
        None
    }
}

/// The lower-case form of a text, as `str::to_lowercase` gives it.
pub uninterp spec fn lowercased(text: Seq<char>) -> Seq<char>;

/// Calls `str::to_lowercase`, which maps a text to its lower-case form by
/// the Unicode case mappings. The contract is taken on trust. It claims
/// that the form depends on the text alone, and names it; it claims
/// nothing of what the form is.
#[verifier::external_body]
fn to_lowercase(text: &str) -> (folded: String)
    ensures
        folded@ == lowercased(text@),
{
    text.to_lowercase()
}

/// Locates the bracketed group of a line.
fn find_bracketed(chars: &Vec<char>) -> (group: Option<Span>)
    ensures
        match group {
            Some(part) => part.within(chars@.len()) && bracketed(chars@) == Some(part.of(chars@)),
            None => bracketed(chars@) is None,
        },
{
    let len = chars.len();
    let open = scan(chars, 0, len, Stop::Char('('));
    proof {
        assert(chars@.subrange(0, len as int) =~= chars@);
    }
    if open == len {
        None
    } else {
        let end = scan(chars, open + 1, len, Stop::Char(')'));
        proof {
            let rest = chars@.skip(open + 1);
            assert(rest =~= chars@.subrange(open + 1, len as int));
            assert(rest.take(end - (open + 1)) =~= chars@.subrange(open + 1, end as int));
        }
        Some(Span { start: open + 1, end })
    }
}

/// Reads the column that one piece of a column list declares.
fn read_column_def(line: &str, chars: &Vec<char>, piece: Span) -> (column: Option<Column>)
    requires
        chars@ == line@,
        piece.within(chars@.len()),
    ensures
        match column {
            Some(c) => column_def(piece.of(chars@)) == Some(c@),
            None => column_def(piece.of(chars@)) is None,
        },
{
    let w = word_spans(chars, piece.start, piece.end);
    if w.len() < 2 {
        return None;
    }
    if span_is(chars, w[1], "integer") {
        Some(Column { name: span_text(line, w[0]), data_type: DataType::Integer })
    } else if span_is(chars, w[1], "text") {
        Some(Column { name: span_text(line, w[0]), data_type: DataType::Text })
    } else {
        None
    }
}

/// Reads the columns that a bracketed column list declares.
fn read_column_defs(line: &str, chars: &Vec<char>, group: Span) -> (columns: Option<Vec<Column>>)
    requires
        chars@ == line@,
        group.within(chars@.len()),
    ensures
        match columns {
            Some(cs) => column_defs(split(group.of(chars@), ',')) == Some(cs.deep_view()),
            None => column_defs(split(group.of(chars@), ',')) is None,
        },
{
    let pieces = split_spans(chars, group.start, group.end, ',');
    let ghost parts = split(group.of(chars@), ',');
    let mut columns: Vec<Column> = Vec::new();
    let mut k: usize = 0;
    while k < pieces.len()
        invariant
            chars@ == line@,
            k <= pieces.len(),
            spans_match(pieces@, chars@, parts),
            parts == split(group.of(chars@), ','),
            columns.len() == k,
            forall|i: int| 0 <= i < k ==> column_def(#[trigger] parts[i]) == Some(columns[i]@),
        decreases pieces.len() - k,
    {
        match read_column_def(line, chars, pieces[k]) {
            Some(column) => {
                columns.push(column);
            },
            None => {
                proof {
                    assert(column_def(parts[k as int]) is None);
                }
                return None;
            },
        }
        k += 1;
    }
    proof {
        assert(column_defs(parts).unwrap() =~= columns.deep_view());
    }
    Some(columns)
}

/// Narrows a span by one quote character at its front and one at its back,
/// as far as it has them.
fn unquote_span(chars: &Vec<char>, part: Span) -> (inner: Span)
    requires
        part.within(chars@.len()),
    ensures
        inner.within(chars@.len()),
        inner.of(chars@) == unquote(part.of(chars@)),
{
    let mut start = part.start;
    let mut end = part.end;
    if start < end && chars[start] == '\'' {
        start += 1;
    }
    proof {
        let s = part.of(chars@);
        if s.len() > 0 && s[0] == '\'' {
            assert(s.skip(1) =~= chars@.subrange(start as int, end as int));
        }
    }
    let ghost rest = chars@.subrange(start as int, end as int);
    if start < end && chars[end - 1] == '\'' {
        end -= 1;
        proof {
            assert(rest.last() == chars@[end as int]);
            assert(rest.drop_last() =~= chars@.subrange(start as int, end as int));
        }
    } else {
        proof {
            if rest.len() > 0 {
                assert(rest.last() == chars@[end - 1]);
            }
        }
    }
    Span { start, end }
}

/// Reads the values of a bracketed value list.
fn read_literals(line: &str, chars: &Vec<char>, group: Span) -> (values: Vec<String>)
    requires
        chars@ == line@,
        group.within(chars@.len()),
    ensures
        values.deep_view() == literals(split(group.of(chars@), ',')),
{
    let pieces = split_spans(chars, group.start, group.end, ',');
    let ghost parts = split(group.of(chars@), ',');
    let mut values: Vec<String> = Vec::new();
    let mut k: usize = 0;
    while k < pieces.len()
        invariant
            chars@ == line@,
            k <= pieces.len(),
            spans_match(pieces@, chars@, parts),
            values.len() == k,
            forall|i: int| 0 <= i < k ==> (#[trigger] values[i])@ == literal(parts[i]),
        decreases pieces.len() - k,
    {
        let piece = pieces[k];
        let trimmed = trim_span(chars, piece.start, piece.end);
        let inner = unquote_span(chars, trimmed);
        values.push(span_text(line, inner));
        k += 1;
    }
    proof {
        assert(values.deep_view() =~= literals(parts));
    }
    values
}

/// Cuts one word into the names that its commas separate.
fn read_names(line: &str, chars: &Vec<char>, word: Span) -> (names: Vec<String>)
    requires
        chars@ == line@,
        word.within(chars@.len()),
    ensures
        names.deep_view() == split(word.of(chars@), ','),
{
    let pieces = split_spans(chars, word.start, word.end, ',');
    let ghost parts = split(word.of(chars@), ',');
    let mut names: Vec<String> = Vec::new();
    let mut k: usize = 0;
    while k < pieces.len()
        invariant
            chars@ == line@,
            k <= pieces.len(),
            spans_match(pieces@, chars@, parts),
            names.len() == k,
            forall|i: int| 0 <= i < k ==> (#[trigger] names[i])@ == parts[i],
        decreases pieces.len() - k,
    {
        names.push(span_text(line, pieces[k]));
        k += 1;
    }
    proof {
        assert(names.deep_view() =~= parts);
    }
    names
}

/// Reads a `CREATE TABLE` command from a line whose first word is `create`.
fn read_create(line: &str, chars: &Vec<char>, w: &Vec<Span>) -> (command: Option<SqlCommand>)
    requires
        chars@ == line@,
        spans_match(w@, chars@, words(chars@)),
    ensures
        match command {
            Some(c) => parse_create(chars@, words(chars@)) == Some(c@),
            None => parse_create(chars@, words(chars@)) is None,
        },
{
    if w.len() < 3 || !span_is(chars, w[1], "table") {
        return None;
    }
    let name = span_text(line, w[2]);
    match find_bracketed(chars) {
        None => {
            let columns: Vec<Column> = Vec::new();
            proof {
                assert(columns.deep_view() =~= Seq::<ColumnView>::empty());
            }
            Some(SqlCommand::CreateTable { name, columns })
        },
        Some(group) => match read_column_defs(line, chars, group) {
            Some(columns) => Some(SqlCommand::CreateTable { name, columns }),
            None => None,
        },
    }
}

/// Reads an `INSERT` command from a line whose first word is `insert`.
fn read_insert(line: &str, chars: &Vec<char>, w: &Vec<Span>) -> (command: Option<SqlCommand>)
    requires
        chars@ == line@,
        spans_match(w@, chars@, words(chars@)),
    ensures
        match command {
            Some(c) => parse_insert(chars@, words(chars@)) == Some(c@),
            None => parse_insert(chars@, words(chars@)) is None,
        },
{
    if w.len() < 4 || !span_is(chars, w[1], "into") || !span_is(chars, w[3], "values") {
        return None;
    }
    let table = span_text(line, w[2]);
    match find_bracketed(chars) {
        Some(group) => {
            let values = read_literals(line, chars, group);
            Some(SqlCommand::Insert { table, values })
        },
        None => None,
    }
}

/// Reads a `SELECT` command from a line whose first word is `select`.
fn read_select(line: &str, chars: &Vec<char>, w: &Vec<Span>) -> (command: Option<SqlCommand>)
    requires
        chars@ == line@,
        spans_match(w@, chars@, words(chars@)),
    ensures
        match command {
            Some(c) => parse_select(words(chars@)) == Some(c@),
            None => parse_select(words(chars@)) is None,
        },
{
    if w.len() < 4 || !span_is(chars, w[2], "from") {
        return None;
    }
    let columns = read_names(line, chars, w[1]);
    let table = span_text(line, w[3]);
    if w.len() >= 5 && span_is(chars, w[4], "where") {
        if w.len() >= 8 && span_is(chars, w[6], "=") {
            let column = span_text(line, w[5]);
            let value = span_text(line, w[7]);
            Some(SqlCommand::Select { table, columns, where_clause: Some((column, value)) })
        } else {
            None
        }
    } else {
        Some(SqlCommand::Select { table, columns, where_clause: None })
    }
}

/// Parses a line that is already in lower case.
///
/// The result is the command that the line spells, and `None` exactly when
/// it spells none.
pub fn parse_folded(line: &str) -> (command: Option<SqlCommand>)
    ensures
        match command {
            Some(c) => parse_command(line@) == Some(c@),
            None => parse_command(line@) is None,
        },
{
    let chars = chars_of(line);
    let w = word_spans(&chars, 0, chars.len());
    proof {
        assert(chars@.subrange(0, chars@.len() as int) =~= chars@);
    }
    if w.len() == 0 {
        None
    } else if span_is(&chars, w[0], "create") {
        read_create(line, &chars, &w)
    } else if span_is(&chars, w[0], "insert") {
        read_insert(line, &chars, &w)
    } else if span_is(&chars, w[0], "select") {
        read_select(line, &chars, &w)
    } else {
        None
    }
}

/// Parses one line of input into a command.
///
/// The line is put into lower case first; the result is the command that
/// the lower-case line spells, and `None` exactly when it spells none. No
/// table is consulted.
///
/// Lower case is taken of the whole line, so that keywords match whatever
/// their case. The case of names and of values is lost with it: `Jobs` and
/// `jobs` are one table, and the value `'Bob'` is stored as `bob`.
pub fn parse_sql(input: &str) -> (command: Option<SqlCommand>)
    ensures
        match command {
            Some(c) => parse_command(lowercased(input@)) == Some(c@),
            None => parse_command(lowercased(input@)) is None,
        },
{
    let folded = to_lowercase(input);
    parse_folded(folded.as_str())
}

} // verus!
