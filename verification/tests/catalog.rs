use mos_db::{Column, DataType, Database, DbError};

fn text(s: &str) -> String {
    s.to_string()
}

fn row(values: &[&str]) -> Vec<String> {
    values.iter().map(|v| v.to_string()).collect()
}

fn jobs() -> Database {
    let mut db = Database::new();
    let cols = vec![
        Column { name: text("id"), data_type: DataType::Integer },
        Column { name: text("email"), data_type: DataType::Text },
    ];
    assert_eq!(db.create_table("jobs", cols), Ok(()));
    db
}

#[test]
fn primary_functions() {
    let mut db = match Database::load(&[]) {
        Ok(d) => d,
        Err(e) => panic!("{:?}", e),
    };

    let cols: Vec<Column> = vec![
        Column {
            name: "id".to_string(),
            data_type: DataType::Integer,
        },
        Column {
            name: "email".to_string(),
            data_type: DataType::Text,
        },
    ];

    match db.create_table("jobs", cols) {
        Ok(()) => {}
        Err(e) => panic!("{}", e.message()),
    };

    let test_email = "example@main.rs".to_string();
    let values = vec![1.to_string(), test_email.clone()];
    match db.insert_into("jobs", values) {
        Ok(()) => {}
        Err(e) => panic!("{}", e.message()),
    };

    let values = db.select_from(
        "jobs",
        &["email".to_string()],
        Some(("id".to_string(), "1".to_string())),
    );

    let email = &values.unwrap()[0][0];
    assert_eq!(email, &test_email);
}

#[test]
fn new_database_has_no_tables() {
    let db = Database::new();
    assert!(db.tables().is_empty());
    assert_eq!(
        db.select_from("jobs", &[], None),
        Err(DbError::TableNotFound { table: text("jobs") })
    );
}

#[test]
fn create_twice_is_refused() {
    let mut db = jobs();
    assert_eq!(db.insert_into("jobs", row(&["1", "a@x.com"])), Ok(()));
    let other = vec![Column { name: text("x"), data_type: DataType::Text }];
    assert_eq!(
        db.create_table("jobs", other),
        Err(DbError::TableExists { table: text("jobs") })
    );
    assert_eq!(db.tables().len(), 1);
    assert_eq!(db.tables()[0].columns.len(), 2);
    assert_eq!(
        db.select_from("jobs", &[text("id"), text("email")], None),
        Ok(vec![row(&["1", "a@x.com"])])
    );
}

#[test]
fn second_table_leaves_first_alone() {
    let mut db = jobs();
    assert_eq!(db.insert_into("jobs", row(&["1", "a@x.com"])), Ok(()));
    let before = db.select_from("jobs", &[text("email")], None);
    assert_eq!(db.create_table("people", vec![]), Ok(()));
    assert_eq!(db.select_from("jobs", &[text("email")], None), before);
    let names: Vec<&str> = db.tables().iter().map(|t| t.name.as_str()).collect();
    assert_eq!(names, vec!["jobs", "people"]);
}

#[test]
fn table_without_columns() {
    let mut db = Database::new();
    assert_eq!(db.create_table("bare", vec![]), Ok(()));
    assert_eq!(db.insert_into("bare", vec![]), Ok(()));
    assert_eq!(db.insert_into("bare", vec![]), Ok(()));
    assert_eq!(
        db.insert_into("bare", row(&["x"])),
        Err(DbError::ArityMismatch { expected: 0, actual: 1 })
    );
    let empty: Vec<String> = vec![];
    assert_eq!(db.select_from("bare", &[], None), Ok(vec![empty.clone(), empty]));
}

#[test]
fn insert_into_missing_table() {
    let mut db = jobs();
    assert_eq!(
        db.insert_into("nope", row(&["1", "a"])),
        Err(DbError::TableNotFound { table: text("nope") })
    );
}

#[test]
fn insert_with_wrong_count() {
    let mut db = jobs();
    assert_eq!(db.insert_into("jobs", row(&["1", "a@x.com"])), Ok(()));
    assert_eq!(
        db.insert_into("jobs", row(&["2"])),
        Err(DbError::ArityMismatch { expected: 2, actual: 1 })
    );
    assert_eq!(
        db.insert_into("jobs", row(&["2", "b", "c"])),
        Err(DbError::ArityMismatch { expected: 2, actual: 3 })
    );
    assert_eq!(
        db.insert_into("jobs", vec![]),
        Err(DbError::ArityMismatch { expected: 2, actual: 0 })
    );
    assert_eq!(db.tables()[0].rows.len(), 1);
}

#[test]
fn count_is_checked_before_types() {
    let mut db = jobs();
    assert_eq!(
        db.insert_into("jobs", row(&["abc"])),
        Err(DbError::ArityMismatch { expected: 2, actual: 1 })
    );
}

#[test]
fn integer_column_refuses_text() {
    let mut db = jobs();
    assert_eq!(
        db.insert_into("jobs", row(&["abc", "a@x.com"])),
        Err(DbError::TypeMismatch { value: text("abc"), column: text("id") })
    );
    assert!(db.tables()[0].rows.is_empty());
    assert_eq!(db.select_from("jobs", &[text("id")], None), Ok(vec![]));
}

#[test]
fn negative_integer_is_kept_verbatim() {
    let mut db = jobs();
    assert_eq!(db.insert_into("jobs", row(&["-42", "a@x.com"])), Ok(()));
    assert_eq!(
        db.select_from("jobs", &[text("id")], None),
        Ok(vec![row(&["-42"])])
    );
    assert_eq!(db.insert_into("jobs", row(&["007", "b"])), Ok(()));
    assert_eq!(
        db.select_from("jobs", &[text("id")], None),
        Ok(vec![row(&["-42"]), row(&["007"])])
    );
}

#[test]
fn first_bad_value_is_reported() {
    let mut db = Database::new();
    let cols = vec![
        Column { name: text("a"), data_type: DataType::Integer },
        Column { name: text("b"), data_type: DataType::Text },
        Column { name: text("c"), data_type: DataType::Integer },
        Column { name: text("d"), data_type: DataType::Integer },
    ];
    assert_eq!(db.create_table("t", cols), Ok(()));
    assert_eq!(
        db.insert_into("t", row(&["1", "not a number", "x", "y"])),
        Err(DbError::TypeMismatch { value: text("x"), column: text("c") })
    );
    assert_eq!(db.insert_into("t", row(&["1", "not a number", "2", "3"])), Ok(()));
}

#[test]
fn text_column_takes_anything() {
    let mut db = jobs();
    assert_eq!(db.insert_into("jobs", row(&["1", ""])), Ok(()));
    assert_eq!(db.insert_into("jobs", row(&["2", "  spaced  "])), Ok(()));
    assert_eq!(
        db.select_from("jobs", &[text("email")], None),
        Ok(vec![row(&[""]), row(&["  spaced  "])])
    );
}

#[test]
fn select_without_filter_keeps_insertion_order() {
    let mut db = jobs();
    for (id, email) in [("3", "c"), ("1", "a"), ("2", "b")] {
        assert_eq!(db.insert_into("jobs", row(&[id, email])), Ok(()));
    }
    assert_eq!(
        db.select_from("jobs", &[text("id"), text("email")], None),
        Ok(vec![row(&["3", "c"]), row(&["1", "a"]), row(&["2", "b"])])
    );
}

#[test]
fn select_projects_in_the_order_asked() {
    let mut db = jobs();
    assert_eq!(db.insert_into("jobs", row(&["1", "a"])), Ok(()));
    assert_eq!(
        db.select_from("jobs", &[text("email"), text("id"), text("email")], None),
        Ok(vec![row(&["a", "1", "a"])])
    );
    let none: Vec<String> = vec![];
    assert_eq!(db.select_from("jobs", &[], None), Ok(vec![none]));
}

#[test]
fn select_with_filter() {
    let mut db = jobs();
    for (id, email) in [("1", "a"), ("2", "b"), ("1", "c"), ("01", "d")] {
        assert_eq!(db.insert_into("jobs", row(&[id, email])), Ok(()));
    }
    assert_eq!(
        db.select_from("jobs", &[text("email")], Some((text("id"), text("1")))),
        Ok(vec![row(&["a"]), row(&["c"])])
    );
    assert_eq!(
        db.select_from("jobs", &[text("id")], Some((text("email"), text("B")))),
        Ok(vec![])
    );
}

#[test]
fn select_filter_matching_nothing_is_empty() {
    let mut db = jobs();
    assert_eq!(db.insert_into("jobs", row(&["1", "a"])), Ok(()));
    assert_eq!(
        db.select_from("jobs", &[text("email")], Some((text("id"), text("9")))),
        Ok(vec![])
    );
    let empty = jobs();
    assert_eq!(empty.select_from("jobs", &[text("email")], None), Ok(vec![]));
}

#[test]
fn select_filter_on_missing_column() {
    let mut db = jobs();
    assert_eq!(db.insert_into("jobs", row(&["1", "a"])), Ok(()));
    assert_eq!(
        db.select_from("jobs", &[text("email")], Some((text("age"), text("1")))),
        Err(DbError::ColumnNotFound { column: text("age") })
    );
}

#[test]
fn select_missing_projected_column_comes_first() {
    let db = jobs();
    assert_eq!(
        db.select_from(
            "jobs",
            &[text("id"), text("x"), text("y")],
            Some((text("z"), text("1")))
        ),
        Err(DbError::ColumnNotFound { column: text("x") })
    );
    assert_eq!(
        db.select_from("nope", &[text("x")], Some((text("z"), text("1")))),
        Err(DbError::TableNotFound { table: text("nope") })
    );
}

#[test]
fn names_are_case_sensitive() {
    let mut db = jobs();
    assert_eq!(db.create_table("Jobs", vec![]), Ok(()));
    assert_eq!(
        db.select_from("jobs", &[text("ID")], None),
        Err(DbError::ColumnNotFound { column: text("ID") })
    );
}

#[test]
fn repeated_column_name_means_the_first() {
    let mut db = Database::new();
    let cols = vec![
        Column { name: text("a"), data_type: DataType::Text },
        Column { name: text("a"), data_type: DataType::Text },
    ];
    assert_eq!(db.create_table("t", cols), Ok(()));
    assert_eq!(db.insert_into("t", row(&["x", "y"])), Ok(()));
    assert_eq!(db.select_from("t", &[text("a")], None), Ok(vec![row(&["x"])]));
    assert_eq!(
        db.select_from("t", &[text("a")], Some((text("a"), text("y")))),
        Ok(vec![])
    );
}

#[test]
fn error_messages() {
    assert_eq!(
        DbError::TableExists { table: text("jobs") }.message(),
        "Table jobs already exists"
    );
    assert_eq!(
        DbError::TableNotFound { table: text("jobs") }.message(),
        "Table 'jobs' not found"
    );
    assert_eq!(
        DbError::ColumnNotFound { column: text("age") }.message(),
        "Column 'age' not found"
    );
    assert_eq!(
        DbError::ArityMismatch { expected: 2, actual: 10 }.message(),
        "Expected 2 values. Got 10"
    );
    assert_eq!(
        DbError::TypeMismatch { value: text("abc"), column: text("id") }.message(),
        "Value 'abc' is not INTEGER for column id"
    );
}
