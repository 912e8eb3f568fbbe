use crate::catalog;
use crate::catalog::{
    find_column, find_table, first_true, hits, is_first, lemma_first_true_at, matching,
    mismatches, missing, position, project, projected, table_names, valid_catalog,
};
use crate::error::{DbError, DbErrorView, SnapshotError};
use crate::number::is_integer;
use crate::schema::{names_of, Column, DataType, Table, TableView};
use crate::snapshot::{
    decode_tables, decoded, decoding, encode_tables, encoding, lemma_restore_snapshot, snapshot,
};
use vstd::prelude::*;

verus! {

/// The catalog: every table of the store, by name. Names are unique, and
/// every row of every table holds one value per column.
#[derive(Debug)]
pub struct Database {
    tables: Vec<Table>,
}

impl View for Database {
    type V = Seq<TableView>;

    /// The tables, in the order in which they were created.
    closed spec fn view(&self) -> Seq<TableView> {
        self.tables.deep_view()
    }
}

/// Finds the first value that an integer column does not accept.
fn find_mismatch(columns: &Vec<Column>, values: &Vec<String>) -> (found: Option<usize>)
    requires
        values.len() == columns.len(),
    ensures
        match found {
            Some(i) => i < columns.len() && first_true(
                mismatches(columns.deep_view(), values.deep_view()),
            ) == Some(i as int),
            None => first_true(mismatches(columns.deep_view(), values.deep_view())) is None,
        },
{
    let ghost flags = mismatches(columns.deep_view(), values.deep_view());
    let mut i: usize = 0;
    while i < columns.len()
        invariant
            i <= columns.len(),
            values.len() == columns.len(),
            flags == mismatches(columns.deep_view(), values.deep_view()),
            forall|j: int| 0 <= j < i ==> !flags[j],
        decreases columns.len() - i,
    {
        let refused = match columns[i].data_type {
            DataType::Integer => !is_integer(values[i].as_str()),
            DataType::Text => false,
        };
        if refused {
            proof {
                lemma_first_true_at(flags, i as int);
            }
            return Some(i);
        }
        i += 1;
    }
    proof {
        assert(forall|j: int| !is_first(flags, j));
    }
    None
}

/// Resolves each wanted column to its index among the columns of a table.
fn resolve(columns: &Vec<Column>, wanted: &[String]) -> (found: Result<Vec<usize>, DbError>)
    ensures
        match first_true(missing(names_of(columns.deep_view()), wanted.deep_view())) {
            Some(j) => found matches Err(err) && err@ == (DbErrorView::ColumnNotFound {
                column: wanted.deep_view()[j],
            }),
            None => found matches Ok(indices) && resolved(
                names_of(columns.deep_view()),
                wanted.deep_view(),
                indices@,
            ),
        },
{
    let ghost names = names_of(columns.deep_view());
    let ghost flags = missing(names, wanted.deep_view());
    let mut indices: Vec<usize> = Vec::new();
    let mut j: usize = 0;
    while j < wanted.len()
        invariant
            j <= wanted.len(),
            names == names_of(columns.deep_view()),
            flags == missing(names, wanted.deep_view()),
            indices.len() == j,
            forall|k: int| 0 <= k < j ==> !flags[k],
            forall|k: int|
                0 <= k < j ==> position(names, wanted.deep_view()[k]) == Some(
                    #[trigger] indices[k] as int,
                ) && indices[k] < names.len(),
        decreases wanted.len() - j,
    {
        match find_column(columns, &wanted[j]) {
            Some(at) => {
                indices.push(at);
            },
            None => {
                proof {
                    lemma_first_true_at(flags, j as int);
                }
                return Err(DbError::ColumnNotFound { column: wanted[j].clone() });
            },
        }
        j += 1;
    }
    proof {
        assert(forall|k: int| !is_first(flags, k));
    }
    Ok(indices)
}

/// Each index is where the table has the wanted column of the same place.
pub open spec fn resolved(
    names: Seq<Seq<char>>,
    wanted: Seq<Seq<char>>,
    indices: Seq<usize>,
) -> bool {
    &&& indices.len() == wanted.len()
    &&& forall|k: int|
        0 <= k < indices.len() ==> position(names, wanted[k]) == Some(#[trigger] indices[k] as int)
            && indices[k] < names.len()
}

/// The values of a row at the given indices, in the order of the indices.
pub open spec fn picked(row: Seq<Seq<char>>, indices: Seq<usize>) -> Seq<Seq<char>> {
    Seq::new(indices.len(), |k: int| row[indices[k] as int])
}

/// Of each row, the values at the given indices.
pub open spec fn picked_rows(rows: Seq<Seq<Seq<char>>>, indices: Seq<usize>) -> Seq<
    Seq<Seq<char>>,
> {
    Seq::new(rows.len(), |i: int| picked(rows[i], indices))
}

/// Copies out of a row the values at the given indices.
fn pick(row: &Vec<String>, indices: &Vec<usize>) -> (values: Vec<String>)
    requires
        forall|k: int| 0 <= k < indices.len() ==> (#[trigger] indices[k]) < row.len(),
    ensures
        values.deep_view() == picked(row.deep_view(), indices@),
{
    let mut values: Vec<String> = Vec::new();
    let mut k: usize = 0;
    while k < indices.len()
        invariant
            k <= indices.len(),
            forall|m: int| 0 <= m < indices.len() ==> (#[trigger] indices[m]) < row.len(),
            values.len() == k,
            forall|m: int| 0 <= m < k ==> (#[trigger] values[m])@ == row[indices[m] as int]@,
        decreases indices.len() - k,
    {
        values.push(row[indices[k]].clone());
        k += 1;
    }
    proof {
        assert(values.deep_view() =~= picked(row.deep_view(), indices@));
    }
    values
}

/// The rows that pass the filter: all of them without one, else those that
/// hold the value at the index.
pub open spec fn passing(rows: Seq<Seq<Seq<char>>>, filter: Option<(int, Seq<char>)>) -> Seq<
    Seq<Seq<char>>,
> {
    match filter {
        None => rows,
        Some((at, value)) => matching(rows, at, value),
    }
}

/// Projects the rows of a table that pass a filter.
fn collect(table: &Table, indices: &Vec<usize>, filter: Option<(usize, &String)>) -> (result: Vec<
    Vec<String>,
>)
    requires
        table@.rows_aligned(),
        forall|k: int| 0 <= k < indices.len() ==> (#[trigger] indices[k]) < table.columns.len(),
        filter matches Some((at, _)) ==> at < table.columns.len(),
    ensures
        result.deep_view() == picked_rows(passing(table@.rows, filter_view(filter)), indices@),
{
    let ghost goal = filter_view(filter);
    let mut result: Vec<Vec<String>> = Vec::new();
    let mut i: usize = 0;
    proof {
        assert(table@.rows.take(0) =~= Seq::empty());
        assert(passing(Seq::empty(), goal) =~= Seq::empty()) by {
            reveal(Seq::filter);
        }
        assert(result.deep_view() =~= picked_rows(Seq::empty(), indices@));
    }
    while i < table.rows.len()
        invariant
            i <= table.rows.len(),
            table@.rows_aligned(),
            goal == filter_view(filter),
            forall|k: int| 0 <= k < indices.len() ==> (#[trigger] indices[k]) < table.columns.len(),
            filter matches Some((at, _)) ==> at < table.columns.len(),
            result.deep_view() == picked_rows(passing(table@.rows.take(i as int), goal), indices@),
        decreases table.rows.len() - i,
    {
        let row = &table.rows[i];
        let ghost seen = table@.rows.take(i as int);
        let ghost kept = passing(seen, goal);
        proof {
            assert(table@.rows[i as int] == row.deep_view());
            assert(row.deep_view().len() == table.columns.len());
            assert(table@.rows.take(i + 1) =~= seen.push(row.deep_view()));
            broadcast use Seq::lemma_filter_push;
        }
        let passes = match filter {
            None => true,
            Some((at, value)) => row[at] == *value,
        };
        proof {
            assert(passing(seen.push(row.deep_view()), goal) == if passes {
                kept.push(row.deep_view())
            } else {
                kept
            });
        }
        if passes {
            let values = pick(row, indices);
            let ghost earlier = result.deep_view();
            result.push(values);
            proof {
                assert(result.deep_view() =~= earlier.push(values.deep_view()));
                assert(earlier.push(values.deep_view()) =~= picked_rows(
                    kept.push(row.deep_view()),
                    indices@,
                ));
            }
        }
        i += 1;
    }
    proof {
        assert(table@.rows.take(i as int) =~= table@.rows);
    }
    result
}

/// The filter as the model has it.
pub open spec fn filter_view(filter: Option<(usize, &String)>) -> Option<(int, Seq<char>)> {
    match filter {
        None => None,
        Some((at, value)) => Some((at as int, value@)),
    }
}

/// Runs a query on one table.
fn select_rows(table: &Table, columns: &[String], where_clause: Option<(String, String)>) -> (found:
    Result<Vec<Vec<String>>, DbError>)
    requires
        table@.rows_aligned(),
    ensures
        match catalog::select_rows(table@, columns.deep_view(), where_clause.deep_view()) {
            Ok(rows) => found matches Ok(got) && got.deep_view() == rows,
            Err(e) => found matches Err(err) && err@ == e,
        },
{
    let ghost names = table@.column_names();
    let ghost wanted = columns.deep_view();
    let indices = match resolve(&table.columns, columns) {
        Ok(indices) => indices,
        Err(e) => {
            return Err(e);
        },
    };
    let filter: Option<(usize, &String)> = match &where_clause {
        None => None,
        Some((column, value)) => match find_column(&table.columns, column) {
            Some(at) => Some((at, value)),
            None => {
                return Err(DbError::ColumnNotFound { column: column.clone() });
            },
        },
    };
    let result = collect(table, &indices, filter);
    proof {
        let kept = passing(table@.rows, filter_view(filter));
        assert forall|i: int| 0 <= i < kept.len() implies picked(kept[i], indices@) == project(
            names,
            wanted,
            kept[i],
        ) by {
            assert(picked(kept[i], indices@) =~= project(names, wanted, kept[i]));
        }
        assert(picked_rows(kept, indices@) =~= projected(names, wanted, kept));
    }
    Ok(result)
}

/// The catalog that the bytes of a snapshot stand for: the empty one for
/// no bytes, else what the codec reads and the snapshot stands for.
pub open spec fn loaded(bytes: Seq<u8>) -> Option<Seq<TableView>> {
    if bytes.len() == 0 {
        Some(Seq::empty())
    } else {
        decoded(bytes)
    }
}

/// Saving and loading give the database back: if the codec reads from the
/// bytes of a snapshot the snapshot that it was given, then the bytes that
/// were saved stand for the catalog that was saved.
pub proof fn lemma_save_then_load(tables: Seq<TableView>, bytes: Seq<u8>)
    requires
        valid_catalog(tables),
    ensures
        encoding(snapshot(tables)) == Some(bytes) && decoding(bytes) == Some(snapshot(tables)) && (
        bytes.len() > 0 || tables.len() == 0) ==> loaded(bytes) == Some(tables),
{
    lemma_restore_snapshot(tables);
    if bytes.len() == 0 && tables.len() == 0 {
        assert(tables =~= Seq::empty());
    }
}

impl Database {
    #[verifier::type_invariant]
    spec fn well_formed(&self) -> bool {
        valid_catalog(self.tables.deep_view())
    }

    /// Moves the tables out, leaving none behind. A change is made to the
    /// tables that were moved out, which are then put back whole, so that
    /// what the database holds is a valid catalog at every moment.
    fn take_tables(&mut self) -> (tables: Vec<Table>)
        ensures
            tables == old(self).tables,
            final(self).tables@ == Seq::<Table>::empty(),
    {
        let mut tables: Vec<Table> = Vec::new();
        proof {
            assert(tables.deep_view() =~= Seq::<TableView>::empty());
        }
        core::mem::swap(&mut self.tables, &mut tables);
        tables
    }

    /// A database without tables.
    pub fn new() -> (db: Database)
        ensures
            db@ == Seq::<TableView>::empty(),
            valid_catalog(db@),
    {
        let tables: Vec<Table> = Vec::new();
        proof {
            assert(tables.deep_view() =~= Seq::<TableView>::empty());
        }
        Database { tables }
    }

    /// The tables, in the order in which they were created.
    pub fn tables(&self) -> (tables: &Vec<Table>)
        ensures
            tables.deep_view() == self@,
            valid_catalog(self@),
    {
        proof {
            use_type_invariant(self);
        }
        &self.tables
    }

    /// Rebuilds a database from the bytes of a snapshot.
    ///
    /// No bytes at all stand for a database without tables. Other bytes
    /// must hold the snapshot of a database, which is then rebuilt; else
    /// the call fails with `Corrupt`.
    pub fn load(data: &[u8]) -> (done: Result<Database, SnapshotError>)
        ensures
            match loaded(data@) {
                Some(tables) => done matches Ok(db) && db@ == tables && valid_catalog(tables),
                None => done matches Err(e) && e == SnapshotError::Corrupt,
            },
    {
        if data.len() == 0 {
            Ok(Database::new())
        } else {
            match decode_tables(data) {
                Ok(tables) => Ok(Database { tables }),
                Err(e) => Err(e),
            }
        }
    }

    /// Encodes the whole database as the bytes of a snapshot.
    ///
    /// The bytes are those that the codec makes of the snapshot of the
    /// tables, in the order in which they were created; the call fails with
    /// `Encoding` exactly when the codec makes none.
    pub fn save(&self) -> (done: Result<Vec<u8>, SnapshotError>)
        ensures
            match encoding(snapshot(self@)) {
                Some(bytes) => done matches Ok(got) && got@ == bytes,
                None => done matches Err(e) && e == SnapshotError::Encoding,
            },
    {
        encode_tables(&self.tables)
    }

    /// Creates an empty table.
    ///
    /// Fails with `TableExists`, and changes nothing, where a table of that
    /// name is there already. The columns may be none.
    pub fn create_table(&mut self, name: &str, columns: Vec<Column>) -> (done: Result<(), DbError>)
        ensures
            match catalog::create_table(old(self)@, name@, columns.deep_view()) {
                Ok(after) => done is Ok && final(self)@ == after,
                Err(e) => done matches Err(err) && err@ == e && final(self)@ == old(self)@,
            },
            valid_catalog(final(self)@),
    {
        proof {
            use_type_invariant(&*self);
        }
        if find_table(&self.tables, name).is_some() {
            return Err(DbError::TableExists { table: name.to_owned() });
        }
        let table = Table { name: name.to_owned(), columns, rows: Vec::new() };
        let ghost before = self.tables.deep_view();
        let mut tables = self.take_tables();
        tables.push(table);
        proof {
            assert(table@.rows =~= Seq::empty());
            catalog::lemma_first_true(hits(table_names(before), name@));
            let after = before.push(table@);
            assert(tables.deep_view() =~= after);
            assert forall|i: int| 0 <= i < before.len() implies before[i].name != name@ by {
                assert(!hits(table_names(before), name@)[i]);
            }
            assert forall|i: int| 0 <= i < after.len() implies (#[trigger] after[i]).rows_aligned(
            ) by {
                if i < before.len() {
                    assert(before[i].rows_aligned());
                }
            }
        }
        self.tables = tables;
        Ok(())
    }

    /// Appends a row to a table.
    ///
    /// Fails, and changes nothing, where no table has that name
    /// (`TableNotFound`), where the number of values is not the number of
    /// columns (`ArityMismatch`), or where the value for an integer column
    /// is no integer literal (`TypeMismatch`, for the first such value). The
    /// values are stored as they are given.
    pub fn insert_into(&mut self, table_name: &str, values: Vec<String>) -> (done: Result<
        (),
        DbError,
    >)
        ensures
            match catalog::insert_into(old(self)@, table_name@, values.deep_view()) {
                Ok(after) => done is Ok && final(self)@ == after,
                Err(e) => done matches Err(err) && err@ == e && final(self)@ == old(self)@,
            },
            valid_catalog(final(self)@),
    {
        proof {
            use_type_invariant(&*self);
        }
        let at = match find_table(&self.tables, table_name) {
            Some(at) => at,
            None => {
                return Err(DbError::TableNotFound { table: table_name.to_owned() });
            },
        };
        let table = &self.tables[at];
        if values.len() != table.columns.len() {
            return Err(
                DbError::ArityMismatch { expected: table.columns.len(), actual: values.len() },
            );
        }
        match find_mismatch(&table.columns, &values) {
            Some(i) => {
                return Err(
                    DbError::TypeMismatch {
                        value: values[i].clone(),
                        column: table.columns[i].name.clone(),
                    },
                );
            },
            None => {},
        }
        let ghost before = self.tables.deep_view();
        let mut tables = self.take_tables();
        tables[at].rows.push(values);
        proof {
            let grown = catalog::with_row(before[at as int], values.deep_view());
            let after = before.update(at as int, grown);
            assert(tables[at as int]@.rows =~= before[at as int].rows.push(values.deep_view()));
            assert(tables.deep_view() =~= after);
            assert forall|i: int| 0 <= i < after.len() implies (#[trigger] after[i]).rows_aligned(
            ) by {
                assert(before[i].rows_aligned());
            }
        }
        self.tables = tables;
        Ok(())
    }

    /// Reads rows of a table: of each row that passes the filter, the
    /// values under the wanted columns, in the order wanted.
    ///
    /// The filter names a column and a value; a row passes where it holds
    /// exactly that text in that column. Without a filter every row passes.
    /// Rows come in the order in which they were inserted. A column may be
    /// wanted more than once.
    ///
    /// Fails where no table has that name (`TableNotFound`) or the table
    /// lacks a column (`ColumnNotFound`, for the first wanted column that is
    /// missing, else for the column of the filter).
    pub fn select_from(
        &self,
        table_name: &str,
        columns: &[String],
        where_clause: Option<(String, String)>,
    ) -> (found: Result<Vec<Vec<String>>, DbError>)
        ensures
            match catalog::select_from(
                self@,
                table_name@,
                columns.deep_view(),
                where_clause.deep_view(),
            ) {
                Ok(rows) => found matches Ok(got) && got.deep_view() == rows,
                Err(e) => found matches Err(err) && err@ == e,
            },
    {
        proof {
            use_type_invariant(self);
        }
        match find_table(&self.tables, table_name) {
            Some(at) => select_rows(&self.tables[at], columns, where_clause),
            None => Err(DbError::TableNotFound { table: table_name.to_owned() }),
        }
    }
}

} // verus!
