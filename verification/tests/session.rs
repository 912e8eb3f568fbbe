use mos_db::executor::{execute, Outcome};
use mos_db::repl::{answer, respond, Reply};
use mos_db::sql::{parse_sql, SqlCommand};
use mos_db::{Column, DataType, Database, DbError};

fn text(s: &str) -> String {
    s.to_string()
}

fn texts(values: &[&str]) -> Vec<String> {
    values.iter().map(|v| v.to_string()).collect()
}

fn shown(lines: &[&str], save: bool) -> Reply {
    Reply { lines: texts(lines), save, quit: false }
}

#[test]
fn create_insert_select_end_to_end() {
    let mut db = Database::new();
    let create = parse_sql("CREATE TABLE jobs (id integer, email text)").unwrap();
    assert_eq!(
        execute(&mut db, create),
        Ok(Outcome::Created { table: text("jobs") })
    );
    let insert = parse_sql("INSERT INTO jobs VALUES (1, 'a@x.com')").unwrap();
    assert_eq!(execute(&mut db, insert), Ok(Outcome::Inserted));
    let select = parse_sql("SELECT email FROM jobs WHERE id = 1").unwrap();
    assert_eq!(
        execute(&mut db, select),
        Ok(Outcome::Rows { rows: vec![texts(&["a@x.com"])] })
    );
}

#[test]
fn unsupported_lines_are_parse_failures_not_errors() {
    let mut db = Database::new();
    assert_eq!(parse_sql("DROP TABLE jobs"), None);
    assert_eq!(respond(&mut db, "DROP TABLE jobs"), shown(&["Parse error"], false));
    assert_eq!(respond(&mut db, "SELECT *"), shown(&["Parse error"], false));
    assert_eq!(respond(&mut db, ""), shown(&["Parse error"], false));
    assert!(db.tables().is_empty());
}

#[test]
fn star_is_an_ordinary_column_name() {
    let mut db = Database::new();
    assert_eq!(
        parse_sql("SELECT * FROM jobs"),
        Some(SqlCommand::Select { table: text("jobs"), columns: texts(&["*"]), where_clause: None })
    );
    assert_eq!(
        respond(&mut db, "SELECT * FROM jobs"),
        shown(&["Error: Table 'jobs' not found"], false)
    );
    assert_eq!(
        respond(&mut db, "create table jobs (id integer)"),
        shown(&["Table 'jobs' created"], true)
    );
    assert_eq!(
        respond(&mut db, "SELECT * FROM jobs"),
        shown(&["Error: Column '*' not found"], false)
    );
}

#[test]
fn execute_passes_errors_on() {
    let mut db = Database::new();
    let insert = SqlCommand::Insert { table: text("t"), values: texts(&["1"]) };
    assert_eq!(
        execute(&mut db, insert),
        Err(DbError::TableNotFound { table: text("t") })
    );
    let create = SqlCommand::CreateTable {
        name: text("t"),
        columns: vec![Column { name: text("n"), data_type: DataType::Integer }],
    };
    assert_eq!(execute(&mut db, create.clone()), Ok(Outcome::Created { table: text("t") }));
    assert_eq!(
        execute(&mut db, create),
        Err(DbError::TableExists { table: text("t") })
    );
    let insert = SqlCommand::Insert { table: text("t"), values: texts(&["x"]) };
    assert_eq!(
        execute(&mut db, insert),
        Err(DbError::TypeMismatch { value: text("x"), column: text("n") })
    );
    let select = SqlCommand::Select {
        table: text("t"),
        columns: texts(&["m"]),
        where_clause: None,
    };
    assert_eq!(
        execute(&mut db, select),
        Err(DbError::ColumnNotFound { column: text("m") })
    );
    assert_eq!(db.tables().len(), 1);
    assert!(db.tables()[0].rows.is_empty());
}

#[test]
fn session_replies() {
    let mut db = Database::new();
    assert_eq!(
        respond(&mut db, "CREATE TABLE jobs (id integer, email text)\n"),
        shown(&["Table 'jobs' created"], true)
    );
    assert_eq!(
        respond(&mut db, "CREATE TABLE jobs (id integer)"),
        shown(&["Error: Table jobs already exists"], true)
    );
    assert_eq!(
        respond(&mut db, "select id,email from jobs"),
        shown(&["(no rows)"], false)
    );
    assert_eq!(
        respond(&mut db, "  INSERT INTO jobs VALUES (1, 'a@x.com')  "),
        shown(&["OK"], true)
    );
    assert_eq!(
        respond(&mut db, "INSERT INTO jobs VALUES (2, b@x.com)"),
        shown(&["OK"], true)
    );
    assert_eq!(
        respond(&mut db, "INSERT INTO jobs VALUES (x, 'c@x.com')"),
        shown(&["Error: Value 'x' is not INTEGER for column id"], true)
    );
    assert_eq!(
        respond(&mut db, "INSERT INTO jobs VALUES (3)"),
        shown(&["Error: Expected 2 values. Got 1"], true)
    );
    assert_eq!(
        respond(&mut db, "INSERT INTO other VALUES (3)"),
        shown(&["Error: Table 'other' not found"], true)
    );
    assert_eq!(
        respond(&mut db, "SELECT id,email,id FROM jobs"),
        shown(&["1 | a@x.com | 1", "2 | b@x.com | 2"], false)
    );
    assert_eq!(
        respond(&mut db, "SELECT email FROM jobs WHERE id = 1"),
        shown(&["a@x.com"], false)
    );
    assert_eq!(
        respond(&mut db, "SELECT email FROM jobs WHERE id = 7"),
        shown(&["(no rows)"], false)
    );
    assert_eq!(
        respond(&mut db, "SELECT email FROM jobs WHERE age = 7"),
        shown(&["Error: Column 'age' not found"], false)
    );
    assert_eq!(respond(&mut db, "nonsense"), shown(&["Parse error"], false));
}

#[test]
fn exit_ends_the_session_with_a_save() {
    let mut db = Database::new();
    let quit = Reply { lines: vec![], save: true, quit: true };
    assert_eq!(respond(&mut db, "exit"), quit);
    assert_eq!(respond(&mut db, "  exit \n"), quit);
    assert_eq!(respond(&mut db, "EXIT"), shown(&["Parse error"], false));
    assert_eq!(respond(&mut db, "exit now"), shown(&["Parse error"], false));
    assert_eq!(respond(&mut db, "ex it"), shown(&["Parse error"], false));
}

#[test]
fn answer_to_a_parsed_line() {
    let mut db = Database::new();
    assert_eq!(answer(&mut db, None), shown(&["Parse error"], false));
    let create = SqlCommand::CreateTable { name: text("T"), columns: vec![] };
    assert_eq!(answer(&mut db, Some(create)), shown(&["Table 'T' created"], true));
    let insert = SqlCommand::Insert { table: text("T"), values: vec![] };
    assert_eq!(answer(&mut db, Some(insert)), shown(&["OK"], true));
    let select = SqlCommand::Select { table: text("T"), columns: vec![], where_clause: None };
    assert_eq!(answer(&mut db, Some(select)), shown(&[""], false));
    let missing = SqlCommand::Select { table: text("t"), columns: vec![], where_clause: None };
    assert_eq!(
        answer(&mut db, Some(missing)),
        shown(&["Error: Table 't' not found"], false)
    );
}

#[test]
fn session_survives_a_save_and_load() {
    let mut db = Database::new();
    assert!(respond(&mut db, "create table jobs (id integer, email text)").save);
    assert!(respond(&mut db, "insert into jobs values (1, 'a@x.com')").save);
    let bytes = db.save().unwrap();
    let mut back = Database::load(&bytes).unwrap();
    assert_eq!(
        respond(&mut back, "select email from jobs where id = 1"),
        shown(&["a@x.com"], false)
    );
}
