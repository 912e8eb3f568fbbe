use mos_db::snapshot::{decode_tables, encode_tables, restore_tables, Record};
use mos_db::{Column, DataType, Database, SnapshotError, Table};
use serde::ser::{Serialize, SerializeStruct, Serializer};
use std::collections::HashMap;

fn text(s: &str) -> String {
    s.to_string()
}

fn row(values: &[&str]) -> Vec<String> {
    values.iter().map(|v| v.to_string()).collect()
}

fn sample() -> Database {
    let mut db = Database::new();
    let cols = vec![
        Column { name: text("id"), data_type: DataType::Integer },
        Column { name: text("email"), data_type: DataType::Text },
    ];
    assert_eq!(db.create_table("jobs", cols), Ok(()));
    assert_eq!(db.create_table("bare", vec![]), Ok(()));
    assert_eq!(db.insert_into("jobs", row(&["1", "a@x.com"])), Ok(()));
    assert_eq!(db.insert_into("jobs", row(&["-2", "ñ → b"])), Ok(()));
    assert_eq!(db.insert_into("bare", vec![]), Ok(()));
    db
}

fn record(key: &str, name: &str, columns: &[(&str, u32)], rows: &[&[&str]]) -> Record {
    (
        text(key),
        (
            text(name),
            columns.iter().map(|(n, t)| (text(n), *t)).collect(),
            rows.iter().map(|r| row(r)).collect(),
        ),
    )
}

struct PlainType(u32);

struct PlainColumn {
    name: String,
    data_type: PlainType,
}

struct PlainTable {
    name: String,
    columns: Vec<PlainColumn>,
    rows: Vec<Vec<String>>,
}

struct PlainDatabase {
    tables: HashMap<String, PlainTable>,
}

impl Serialize for PlainType {
    fn serialize<S: Serializer>(&self, serializer: S) -> Result<S::Ok, S::Error> {
        if self.0 == 0 {
            serializer.serialize_unit_variant("DataType", 0, "Integer")
        } else {
            serializer.serialize_unit_variant("DataType", 1, "Text")
        }
    }
}

impl Serialize for PlainColumn {
    fn serialize<S: Serializer>(&self, serializer: S) -> Result<S::Ok, S::Error> {
        let mut state = serializer.serialize_struct("Column", 2)?;
        state.serialize_field("name", &self.name)?;
        state.serialize_field("data_type", &self.data_type)?;
        state.end()
    }
}

impl Serialize for PlainTable {
    fn serialize<S: Serializer>(&self, serializer: S) -> Result<S::Ok, S::Error> {
        let mut state = serializer.serialize_struct("Table", 3)?;
        state.serialize_field("name", &self.name)?;
        state.serialize_field("columns", &self.columns)?;
        state.serialize_field("rows", &self.rows)?;
        state.end()
    }
}

impl Serialize for PlainDatabase {
    fn serialize<S: Serializer>(&self, serializer: S) -> Result<S::Ok, S::Error> {
        let mut state = serializer.serialize_struct("Database", 1)?;
        state.serialize_field("tables", &self.tables)?;
        state.end()
    }
}

fn plain_jobs() -> PlainTable {
    PlainTable {
        name: text("jobs"),
        columns: vec![
            PlainColumn { name: text("id"), data_type: PlainType(0) },
            PlainColumn { name: text("email"), data_type: PlainType(1) },
        ],
        rows: vec![row(&["1", "a@x.com"])],
    }
}

#[test]
fn no_bytes_load_as_an_empty_database() {
    let db = Database::load(&[]).unwrap();
    assert!(db.tables().is_empty());
}

#[test]
fn save_then_load_gives_the_database_back() {
    let db = sample();
    let bytes = db.save().unwrap();
    assert!(!bytes.is_empty());
    let back = Database::load(&bytes).unwrap();
    assert_eq!(back.tables(), db.tables());
    assert_eq!(back.tables().len(), 2);
    assert_eq!(back.tables()[0].name, "jobs");
    assert_eq!(back.tables()[1].name, "bare");
    assert_eq!(
        back.select_from("jobs", &[text("id"), text("email")], None),
        Ok(vec![row(&["1", "a@x.com"]), row(&["-2", "ñ → b"])])
    );
    assert_eq!(back.save().unwrap(), bytes);
}

#[test]
fn empty_database_round_trip() {
    let db = Database::new();
    let bytes = db.save().unwrap();
    assert_eq!(bytes, vec![0u8; 8]);
    let back = Database::load(&bytes).unwrap();
    assert!(back.tables().is_empty());
}

#[test]
fn loaded_database_can_be_changed() {
    let bytes = sample().save().unwrap();
    let mut back = Database::load(&bytes).unwrap();
    assert_eq!(
        back.create_table("jobs", vec![]),
        Err(mos_db::DbError::TableExists { table: text("jobs") })
    );
    assert_eq!(back.insert_into("jobs", row(&["3", "c"])), Ok(()));
    assert_eq!(
        back.select_from("jobs", &[text("email")], Some((text("id"), text("3")))),
        Ok(vec![row(&["c"])])
    );
}

#[test]
fn snapshot_bytes_are_laid_out_field_by_field() {
    let mut db = Database::new();
    let cols = vec![Column { name: text("n"), data_type: DataType::Text }];
    assert_eq!(db.create_table("t", cols), Ok(()));
    assert_eq!(db.insert_into("t", row(&["hi"])), Ok(()));
    let mut expected: Vec<u8> = Vec::new();
    expected.extend_from_slice(&1u64.to_le_bytes());
    expected.extend_from_slice(&1u64.to_le_bytes());
    expected.extend_from_slice(b"t");
    expected.extend_from_slice(&1u64.to_le_bytes());
    expected.extend_from_slice(b"t");
    expected.extend_from_slice(&1u64.to_le_bytes());
    expected.extend_from_slice(&1u64.to_le_bytes());
    expected.extend_from_slice(b"n");
    expected.extend_from_slice(&1u32.to_le_bytes());
    expected.extend_from_slice(&1u64.to_le_bytes());
    expected.extend_from_slice(&1u64.to_le_bytes());
    expected.extend_from_slice(&2u64.to_le_bytes());
    expected.extend_from_slice(b"hi");
    assert_eq!(db.save().unwrap(), expected);
}

#[test]
fn snapshot_is_that_of_a_map_of_table_structs() {
    let mut db = Database::new();
    let cols = vec![
        Column { name: text("id"), data_type: DataType::Integer },
        Column { name: text("email"), data_type: DataType::Text },
    ];
    assert_eq!(db.create_table("jobs", cols), Ok(()));
    assert_eq!(db.insert_into("jobs", row(&["1", "a@x.com"])), Ok(()));
    let mut tables = HashMap::new();
    tables.insert(text("jobs"), plain_jobs());
    let plain = PlainDatabase { tables };
    assert_eq!(db.save().unwrap(), bincode::serialize(&plain).unwrap());
}

#[test]
fn loads_a_map_of_table_structs() {
    let mut tables = HashMap::new();
    tables.insert(text("jobs"), plain_jobs());
    tables.insert(
        text("bare"),
        PlainTable { name: text("bare"), columns: vec![], rows: vec![vec![], vec![]] },
    );
    let bytes = bincode::serialize(&PlainDatabase { tables }).unwrap();
    let db = Database::load(&bytes).unwrap();
    assert_eq!(db.tables().len(), 2);
    assert_eq!(
        db.select_from("jobs", &[text("email")], Some((text("id"), text("1")))),
        Ok(vec![row(&["a@x.com"])])
    );
    let empty: Vec<String> = vec![];
    assert_eq!(db.select_from("bare", &[], None), Ok(vec![empty.clone(), empty]));
}

#[test]
fn garbage_is_corrupt() {
    assert_eq!(Database::load(&[1]).err(), Some(SnapshotError::Corrupt));
    assert_eq!(Database::load(&[0xff; 8]).err(), Some(SnapshotError::Corrupt));
    assert_eq!(Database::load(b"key:value\n").err(), Some(SnapshotError::Corrupt));
    let mut bytes = sample().save().unwrap();
    bytes.truncate(bytes.len() - 1);
    assert_eq!(Database::load(&bytes).err(), Some(SnapshotError::Corrupt));
}

#[test]
fn text_that_is_not_utf8_is_corrupt() {
    let mut bytes: Vec<u8> = Vec::new();
    bytes.extend_from_slice(&1u64.to_le_bytes());
    bytes.extend_from_slice(&1u64.to_le_bytes());
    bytes.push(0xff);
    bytes.extend_from_slice(&1u64.to_le_bytes());
    bytes.push(0xff);
    bytes.extend_from_slice(&0u64.to_le_bytes());
    bytes.extend_from_slice(&0u64.to_le_bytes());
    assert_eq!(Database::load(&bytes).err(), Some(SnapshotError::Corrupt));
}

#[test]
fn unknown_type_tag_is_corrupt() {
    let good = vec![record("t", "t", &[("a", 0), ("b", 1)], &[&["1", "x"]])];
    assert!(Database::load(&bincode::serialize(&good).unwrap()).is_ok());
    let bad = vec![record("t", "t", &[("a", 0), ("b", 2)], &[&["1", "x"]])];
    assert_eq!(
        Database::load(&bincode::serialize(&bad).unwrap()).err(),
        Some(SnapshotError::Corrupt)
    );
    assert_eq!(restore_tables(bad), Err(SnapshotError::Corrupt));
}

#[test]
fn row_of_the_wrong_width_is_corrupt() {
    let bad = vec![record("t", "t", &[("a", 1)], &[&["x"], &["x", "y"]])];
    assert_eq!(
        Database::load(&bincode::serialize(&bad).unwrap()).err(),
        Some(SnapshotError::Corrupt)
    );
    let short = vec![record("t", "t", &[("a", 1)], &[&[]])];
    assert_eq!(restore_tables(short), Err(SnapshotError::Corrupt));
}

#[test]
fn key_that_is_not_the_name_is_corrupt() {
    let bad = vec![record("t", "u", &[], &[])];
    assert_eq!(
        Database::load(&bincode::serialize(&bad).unwrap()).err(),
        Some(SnapshotError::Corrupt)
    );
}

#[test]
fn repeated_key_is_corrupt() {
    let bad = vec![
        record("t", "t", &[], &[]),
        record("u", "u", &[], &[]),
        record("t", "t", &[("a", 1)], &[]),
    ];
    assert_eq!(
        Database::load(&bincode::serialize(&bad).unwrap()).err(),
        Some(SnapshotError::Corrupt)
    );
}

#[test]
fn integer_columns_are_not_checked_again_on_load() {
    let odd = vec![record("t", "t", &[("a", 0)], &[&["not a number"]])];
    let db = Database::load(&bincode::serialize(&odd).unwrap()).unwrap();
    assert_eq!(
        db.select_from("t", &[text("a")], None),
        Ok(vec![row(&["not a number"])])
    );
}

#[test]
fn restore_rebuilds_tables_in_order() {
    let records = vec![
        record("b", "b", &[("x", 1), ("y", 0)], &[&["p", "1"], &["q", "2"]]),
        record("a", "a", &[], &[&[], &[]]),
    ];
    let tables = restore_tables(records).unwrap();
    assert_eq!(
        tables,
        vec![
            Table {
                name: text("b"),
                columns: vec![
                    Column { name: text("x"), data_type: DataType::Text },
                    Column { name: text("y"), data_type: DataType::Integer },
                ],
                rows: vec![row(&["p", "1"]), row(&["q", "2"])],
            },
            Table { name: text("a"), columns: vec![], rows: vec![vec![], vec![]] },
        ]
    );
    assert_eq!(restore_tables(vec![]), Ok(vec![]));
}

#[test]
fn tables_encode_and_decode() {
    let tables = vec![Table {
        name: text("t"),
        columns: vec![Column { name: text("a"), data_type: DataType::Integer }],
        rows: vec![row(&["5"])],
    }];
    let bytes = encode_tables(&tables).unwrap();
    assert_eq!(
        bytes,
        bincode::serialize(&vec![record("t", "t", &[("a", 0)], &[&["5"]])]).unwrap()
    );
    assert_eq!(decode_tables(&bytes), Ok(tables));
    assert_eq!(decode_tables(&[]), Err(SnapshotError::Corrupt));
}

#[test]
fn type_tags() {
    assert_eq!(DataType::Integer.tag(), 0);
    assert_eq!(DataType::Text.tag(), 1);
    assert_eq!(DataType::from_tag(0), Some(DataType::Integer));
    assert_eq!(DataType::from_tag(1), Some(DataType::Text));
    assert_eq!(DataType::from_tag(2), None);
    assert_eq!(DataType::from_tag(u32::MAX), None);
}
