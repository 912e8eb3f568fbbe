use crate::catalog::{find_table, position, table_names, valid_catalog};
use crate::error::SnapshotError;
use crate::schema::{Column, ColumnView, DataType, Table, TableView};
use vstd::prelude::*;

verus! {

/// The number that stands for a column type in a snapshot.
pub open spec fn tag_of(data_type: DataType) -> u32 {
    match data_type {
        DataType::Integer => 0,
        DataType::Text => 1,
    }
}

/// The column type that a number stands for in a snapshot, if any.
pub open spec fn type_of(tag: u32) -> Option<DataType> {
    if tag == 0 {
        Some(DataType::Integer)
    } else if tag == 1 {
        Some(DataType::Text)
    } else {
        None
    }
}

impl DataType {
    /// The number that stands for this type in a snapshot.
    pub fn tag(self) -> (tag: u32)
        ensures
            tag == tag_of(self),
    {
        match self {
            DataType::Integer => 0,
            DataType::Text => 1,
        }
    }

    /// The type that a number stands for in a snapshot.
    pub fn from_tag(tag: u32) -> (data_type: Option<DataType>)
        ensures
            data_type == type_of(tag),
    {
        if tag == 0 {
            Some(DataType::Integer)
        } else if tag == 1 {
            Some(DataType::Text)
        } else {
            None
        }
    }
}

/// A table as the codec sees it: name, columns with the tag of their type,
/// rows.
pub type TableRecord = (String, Vec<(String, u32)>, Vec<Vec<String>>);

/// An entry of a snapshot: the key of a table, and the table.
pub type Record = (String, TableRecord);

/// The mathematical value of a [`TableRecord`].
pub type TableRecordView = (Seq<char>, Seq<(Seq<char>, u32)>, Seq<Seq<Seq<char>>>);

/// The mathematical value of a [`Record`].
pub type RecordView = (Seq<char>, TableRecordView);

/// The columns of a table with the tag of their type.
pub open spec fn tagged(columns: Seq<ColumnView>) -> Seq<(Seq<char>, u32)> {
    Seq::new(columns.len(), |i: int| (columns[i].name, tag_of(columns[i].data_type)))
}

/// The entry that a table makes in a snapshot, under its own name.
pub open spec fn record_of(table: TableView) -> RecordView {
    (table.name, (table.name, tagged(table.columns), table.rows))
}

/// The snapshot of a catalog: one entry for each table, in order.
pub open spec fn snapshot(tables: Seq<TableView>) -> Seq<RecordView> {
    Seq::new(tables.len(), |i: int| record_of(tables[i]))
}

/// The columns that tagged columns stand for.
pub open spec fn untagged(columns: Seq<(Seq<char>, u32)>) -> Seq<ColumnView> {
    Seq::new(
        columns.len(),
        |i: int| ColumnView { name: columns[i].0, data_type: type_of(columns[i].1).unwrap() },
    )
}

/// Whether an entry is that of a table: the key is the table's name, every
/// tag stands for a type, and every row has one value per column.
pub open spec fn is_table(record: RecordView) -> bool {
    let (key, (name, columns, rows)) = record;
    &&& key == name
    &&& forall|i: int| 0 <= i < columns.len() ==> type_of((#[trigger] columns[i]).1) is Some
    &&& forall|i: int| 0 <= i < rows.len() ==> (#[trigger] rows[i]).len() == columns.len()
}

/// The table that an entry stands for.
pub open spec fn table_of(record: RecordView) -> TableView {
    TableView { name: record.1.0, columns: untagged(record.1.1), rows: record.1.2 }
}

/// The tables that the entries stand for.
pub open spec fn tables_of(records: Seq<RecordView>) -> Seq<TableView> {
    Seq::new(records.len(), |i: int| table_of(records[i]))
}

/// The catalog that a snapshot stands for: each entry is that of a table,
/// and no two entries have the same key. Other snapshots stand for none.
pub open spec fn restore(records: Seq<RecordView>) -> Option<Seq<TableView>> {
    if (forall|i: int| 0 <= i < records.len() ==> is_table(#[trigger] records[i])) && (forall|
        i: int,
        j: int,
    | 0 <= i < j < records.len() ==> records[i].0 != records[j].0) {
        Some(tables_of(records))
    } else {
        None
    }
}

/// A snapshot of a catalog stands for that catalog.
pub proof fn lemma_restore_snapshot(tables: Seq<TableView>)
    requires
        valid_catalog(tables),
    ensures
        restore(snapshot(tables)) == Some(tables),
{
    let records = snapshot(tables);
    assert forall|i: int| 0 <= i < records.len() implies is_table(#[trigger] records[i]) by {
        assert(tables[i].rows_aligned());
    }
    assert forall|i: int| 0 <= i < tables.len() implies table_of(records[i]) == tables[i] by {
        assert(untagged(tagged(tables[i].columns)) =~= tables[i].columns);
    }
    assert(tables_of(records) =~= tables);
}

/// What a snapshot stands for is a catalog.
pub proof fn lemma_restore_valid(records: Seq<RecordView>)
    requires
        restore(records) is Some,
    ensures
        valid_catalog(restore(records).unwrap()),
{
    let tables = tables_of(records);
    assert forall|i: int| 0 <= i < tables.len() implies (#[trigger] tables[i]).rows_aligned() by {
        assert(is_table(records[i]));
    }
}

/// The bytes that `bincode::serialize` makes of a snapshot, where it makes
/// any.
pub uninterp spec fn encoding(
    records: Seq<(Seq<char>, (Seq<char>, Seq<(Seq<char>, u32)>, Seq<Seq<Seq<char>>>))>,
) -> Option<Seq<u8>>;

/// The snapshot that `bincode::deserialize` reads from bytes, where it
/// reads one.
pub uninterp spec fn decoding(bytes: Seq<u8>) -> Option<
    Seq<(Seq<char>, (Seq<char>, Seq<(Seq<char>, u32)>, Seq<Seq<Seq<char>>>))>,
>;

/// `bincode::ErrorKind`, the error that the codec reports. Nothing is known
/// of its values; an error of the codec is told from success, and that is
/// all.
#[verifier::external_type_specification]
#[verifier::external_body]
pub struct ExErrorKind(bincode::ErrorKind);

/// Calls `bincode::serialize` on a snapshot. The contract is taken on
/// trust. It claims that whether the codec makes bytes of a snapshot, and
/// which, depends on the values in the snapshot alone, and names the
/// result; it claims nothing of what the bytes are.
#[verifier::external_body]
fn encode(records: &Vec<(&String, (&String, Vec<(&String, u32)>, &Vec<Vec<String>>))>) -> (done:
    Result<Vec<u8>, bincode::Error>)
    ensures
        match done {
            Ok(bytes) => encoding(records.deep_view()) == Some(bytes@),
            Err(_) => encoding(records.deep_view()) is None,
        },
{
    bincode::serialize(records)
}

/// Calls `bincode::deserialize` for a snapshot. The contract is taken on
/// trust. It claims that whether the codec reads a snapshot from bytes, and
/// which, depends on the bytes alone, and names the result; it claims
/// nothing of what is read.
#[verifier::external_body]
fn decode(bytes: &[u8]) -> (done: Result<Vec<Record>, bincode::Error>)
    ensures
        match done {
            Ok(records) => decoding(bytes@) == Some(records.deep_view()),
            Err(_) => decoding(bytes@) is None,
        },
{
    bincode::deserialize(bytes)
}

/// Encodes the tables of a catalog.
///
/// The bytes are those that the codec makes of the snapshot of the tables;
/// the call fails with `Encoding` exactly when the codec makes none.
pub fn encode_tables(tables: &Vec<Table>) -> (done: Result<Vec<u8>, SnapshotError>)
    ensures
        match encoding(snapshot(tables.deep_view())) {
            Some(bytes) => done matches Ok(got) && got@ == bytes,
            None => done == Err::<Vec<u8>, SnapshotError>(SnapshotError::Encoding),
        },
{
    let mut records: Vec<(&String, (&String, Vec<(&String, u32)>, &Vec<Vec<String>>))> = Vec::new();
    let mut i: usize = 0;
    while i < tables.len()
        invariant
            i <= tables.len(),
            records.len() == i,
            forall|k: int|
                0 <= k < i ==> (#[trigger] records[k]).deep_view() == record_of(tables[k]@),
        decreases tables.len() - i,
    {
        let table = &tables[i];
        let mut columns: Vec<(&String, u32)> = Vec::new();
        let mut j: usize = 0;
        while j < table.columns.len()
            invariant
                j <= table.columns.len(),
                columns.len() == j,
                forall|k: int|
                    0 <= k < j ==> (#[trigger] columns[k]).deep_view() == (
                        table.columns[k].name@,
                        tag_of(table.columns[k].data_type),
                    ),
            decreases table.columns.len() - j,
        {
            columns.push((&table.columns[j].name, table.columns[j].data_type.tag()));
            j += 1;
        }
        proof {
            assert(columns.deep_view() =~= tagged(table@.columns));
        }
        records.push((&table.name, (&table.name, columns, &table.rows)));
        i += 1;
    }
    proof {
        assert(records.deep_view() =~= snapshot(tables.deep_view()));
    }
    match encode(&records) {
        Ok(bytes) => Ok(bytes),
        Err(_) => Err(SnapshotError::Encoding),
    }
}

/// Turns the tagged columns of an entry into columns.
fn untag(columns: Vec<(String, u32)>) -> (done: Option<Vec<Column>>)
    ensures
        match done {
            Some(cs) => (forall|i: int|
                0 <= i < columns.len() ==> type_of((#[trigger] columns.deep_view()[i]).1) is Some)
                && cs.deep_view() == untagged(columns.deep_view()),
            None => exists|i: int|
                0 <= i < columns.len() && type_of((#[trigger] columns.deep_view()[i]).1) is None,
        },
{
    let ghost all = columns.deep_view();
    let mut result: Vec<Column> = Vec::new();
    for column in it: columns
        invariant
            all == columns.deep_view(),
            it.seq() == columns@,
            result.len() == it.index(),
            forall|i: int| 0 <= i < it.index() ==> type_of((#[trigger] all[i]).1) is Some,
            forall|i: int| 0 <= i < it.index() ==> (#[trigger] result[i])@ == untagged(all)[i],
    {
        let ghost at = it.index() as int;
        proof {
            assert(all[at] == column.deep_view());
        }
        let (name, tag) = column;
        match DataType::from_tag(tag) {
            Some(data_type) => {
                result.push(Column { name, data_type });
            },
            None => {
                return None;
            },
        }
    }
    proof {
        assert(result.deep_view() =~= untagged(all));
    }
    Some(result)
}

/// Whether every row has the given number of values.
fn rows_have(rows: &Vec<Vec<String>>, width: usize) -> (aligned: bool)
    ensures
        aligned == forall|i: int|
            0 <= i < rows.len() ==> (#[trigger] rows.deep_view()[i]).len() == width,
{
    let mut i: usize = 0;
    while i < rows.len()
        invariant
            i <= rows.len(),
            forall|k: int| 0 <= k < i ==> (#[trigger] rows.deep_view()[k]).len() == width,
        decreases rows.len() - i,
    {
        if rows[i].len() != width {
            proof {
                assert(rows.deep_view()[i as int].len() != width);
            }
            return false;
        }
        i += 1;
    }
    true
}

/// Rebuilds the tables of a catalog from the entries of a snapshot.
///
/// The result is the catalog that the snapshot stands for; the call fails
/// with `Corrupt` exactly when it stands for none.
pub fn restore_tables(records: Vec<Record>) -> (done: Result<Vec<Table>, SnapshotError>)
    ensures
        match restore(records.deep_view()) {
            Some(tables) => done matches Ok(got) && got.deep_view() == tables && valid_catalog(
                tables,
            ),
            None => done == Err::<Vec<Table>, SnapshotError>(SnapshotError::Corrupt),
        },
{
    let ghost all = records.deep_view();
    let mut tables: Vec<Table> = Vec::new();
    for record in it: records
        invariant
            all == records.deep_view(),
            it.seq() == records@,
            tables.len() == it.index(),
            forall|i: int| 0 <= i < it.index() ==> is_table(#[trigger] all[i]),
            forall|i: int, j: int| 0 <= i < j < it.index() ==> all[i].0 != all[j].0,
            forall|i: int| 0 <= i < it.index() ==> (#[trigger] tables[i])@ == table_of(all[i]),
    {
        let ghost at = it.index() as int;
        proof {
            assert(all[at] == record.deep_view());
        }
        let (key, (name, tagged_columns, rows)) = record;
        if key != name {
            proof {
                assert(!is_table(all[at]));
            }
            return Err(SnapshotError::Corrupt);
        }
        let columns = match untag(tagged_columns) {
            Some(columns) => columns,
            None => {
                proof {
                    assert(!is_table(all[at]));
                }
                return Err(SnapshotError::Corrupt);
            },
        };
        proof {
            assert(columns.deep_view().len() == all[at].1.1.len());
            assert(rows.deep_view() == all[at].1.2);
        }
        if !rows_have(&rows, columns.len()) {
            return Err(SnapshotError::Corrupt);
        }
        let ghost names = table_names(tables.deep_view());
        if find_table(&tables, name.as_str()).is_some() {
            proof {
                crate::catalog::lemma_first_true(crate::catalog::hits(names, name@));
                let k = position(names, name@).unwrap();
                assert(all[k].0 == all[at].0);
            }
            return Err(SnapshotError::Corrupt);
        }
        proof {
            crate::catalog::lemma_first_true(crate::catalog::hits(names, name@));
            assert forall|i: int| 0 <= i < at implies all[i].0 != all[at].0 by {
                assert(!crate::catalog::hits(names, name@)[i]);
            }
        }
        tables.push(Table { name, columns, rows });
    }
    proof {
        assert(tables.deep_view() =~= tables_of(all));
        lemma_restore_valid(all);
    }
    Ok(tables)
}

/// Decodes the tables of a catalog.
///
/// The result is the catalog that the snapshot in the bytes stands for;
/// the call fails with `Corrupt` exactly when the codec reads no snapshot
/// from the bytes or the snapshot stands for no catalog.
pub fn decode_tables(bytes: &[u8]) -> (done: Result<Vec<Table>, SnapshotError>)
    ensures
        match decoded(bytes@) {
            Some(tables) => done matches Ok(got) && got.deep_view() == tables && valid_catalog(
                tables,
            ),
            None => done == Err::<Vec<Table>, SnapshotError>(SnapshotError::Corrupt),
        },
{
    match decode(bytes) {
        Ok(records) => restore_tables(records),
        Err(_) => Err(SnapshotError::Corrupt),
    }
}

/// The catalog that bytes stand for: that of the snapshot that the codec
/// reads from them.
pub open spec fn decoded(bytes: Seq<u8>) -> Option<Seq<TableView>> {
    match decoding(bytes) {
        Some(records) => restore(records),
        None => None,
    }
}

} // verus!
