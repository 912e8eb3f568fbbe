use crate::error::DbErrorView;
use crate::number::is_integer_literal;
use crate::schema::{names_of, Column, ColumnView, DataType, Table, TableView};
use vstd::prelude::*;

verus! {

/// Whether `i` is the least index at which `flags` holds `true`.
pub open spec fn is_first(flags: Seq<bool>, i: int) -> bool {
    &&& 0 <= i < flags.len()
    &&& flags[i]
    &&& forall|j: int| 0 <= j < i ==> !flags[j]
}

/// The least index at which `flags` holds `true`, if it holds one.
pub open spec fn first_true(flags: Seq<bool>) -> Option<int> {
    if exists|i: int| is_first(flags, i) {
        Some(choose|i: int| is_first(flags, i))
    } else {
        None
    }
}

/// There is at most one least index.
pub proof fn lemma_first_true_at(flags: Seq<bool>, i: int)
    requires
        is_first(flags, i),
    ensures
        first_true(flags) == Some(i),
{
    let k = choose|k: int| is_first(flags, k);
    if k < i {
        assert(!flags[k]);
    } else if i < k {
        assert(!flags[i]);
    }
}

/// Where a flag is raised, there is a first one.
pub proof fn lemma_first_true_exists(flags: Seq<bool>, i: int)
    requires
        0 <= i < flags.len(),
        flags[i],
    ensures
        first_true(flags) is Some,
    decreases i,
{
    if exists|j: int| 0 <= j < i && flags[j] {
        let j = choose|j: int| 0 <= j < i && flags[j];
        lemma_first_true_exists(flags, j);
    } else {
        assert(is_first(flags, i));
    }
}

/// What `first_true` returns: the least index of a raised flag, or `None`
/// where none is raised.
pub proof fn lemma_first_true(flags: Seq<bool>)
    ensures
        match first_true(flags) {
            Some(i) => is_first(flags, i),
            None => forall|i: int| 0 <= i < flags.len() ==> !flags[i],
        },
{
    if first_true(flags) is None {
        assert forall|i: int| 0 <= i < flags.len() implies !flags[i] by {
            if flags[i] {
                lemma_first_true_exists(flags, i);
            }
        }
    }
}

/// For each name of `names`, whether it is `name`.
pub open spec fn hits(names: Seq<Seq<char>>, name: Seq<char>) -> Seq<bool> {
    Seq::new(names.len(), |i: int| names[i] == name)
}

/// The index of the first occurrence of `name` in `names`, if it occurs.
pub open spec fn position(names: Seq<Seq<char>>, name: Seq<char>) -> Option<int> {
    first_true(hits(names, name))
}

/// The names of the tables, in the order of the catalog.
pub open spec fn table_names(tables: Seq<TableView>) -> Seq<Seq<char>> {
    Seq::new(tables.len(), |i: int| tables[i].name)
}

/// No two tables share a name.
pub open spec fn distinct_names(tables: Seq<TableView>) -> bool {
    forall|i: int, j: int| 0 <= i < j < tables.len() ==> tables[i].name != tables[j].name
}

/// What holds of every catalog: table names are unique, and every row of
/// every table has one value per column.
pub open spec fn valid_catalog(tables: Seq<TableView>) -> bool {
    &&& distinct_names(tables)
    &&& forall|i: int| 0 <= i < tables.len() ==> (#[trigger] tables[i]).rows_aligned()
}

/// The table of the given name, if the catalog has one.
pub open spec fn table_named(tables: Seq<TableView>, name: Seq<char>) -> Option<TableView> {
    match position(table_names(tables), name) {
        Some(i) => Some(tables[i]),
        None => None,
    }
}

/// A table as it is created: named, with its columns, without rows.
pub open spec fn empty_table(name: Seq<char>, columns: Seq<ColumnView>) -> TableView {
    TableView { name, columns, rows: Seq::empty() }
}

/// The catalog after a table was created in it, or why none was.
pub open spec fn create_table(
    tables: Seq<TableView>,
    name: Seq<char>,
    columns: Seq<ColumnView>,
) -> Result<Seq<TableView>, DbErrorView> {
    if position(table_names(tables), name) is Some {
        Err(DbErrorView::TableExists { table: name })
    } else {
        Ok(tables.push(empty_table(name, columns)))
    }
}

/// For each column, whether it is an integer column and the value offered
/// for it is no integer literal.
pub open spec fn mismatches(columns: Seq<ColumnView>, values: Seq<Seq<char>>) -> Seq<bool> {
    Seq::new(
        columns.len(),
        |i: int| columns[i].data_type == DataType::Integer && !is_integer_literal(values[i]),
    )
}

/// Whether a row may enter a table of the given columns, and if not, why:
/// the number of values comes first, then the values from left to right.
pub open spec fn check_row(columns: Seq<ColumnView>, values: Seq<Seq<char>>) -> Result<
    (),
    DbErrorView,
> {
    if values.len() != columns.len() {
        Err(DbErrorView::ArityMismatch { expected: columns.len(), actual: values.len() })
    } else {
        match first_true(mismatches(columns, values)) {
            Some(i) => Err(DbErrorView::TypeMismatch { value: values[i], column: columns[i].name }),
            None => Ok(()),
        }
    }
}

/// A table with one more row at its end.
pub open spec fn with_row(table: TableView, values: Seq<Seq<char>>) -> TableView {
    TableView { name: table.name, columns: table.columns, rows: table.rows.push(values) }
}

/// The catalog after a row was inserted into the named table, or why none
/// was.
pub open spec fn insert_into(
    tables: Seq<TableView>,
    name: Seq<char>,
    values: Seq<Seq<char>>,
) -> Result<Seq<TableView>, DbErrorView> {
    match position(table_names(tables), name) {
        None => Err(DbErrorView::TableNotFound { table: name }),
        Some(i) => match check_row(tables[i].columns, values) {
            Err(e) => Err(e),
            Ok(()) => Ok(tables.update(i, with_row(tables[i], values))),
        },
    }
}

/// For each wanted name, whether the table lacks a column of that name.
pub open spec fn missing(names: Seq<Seq<char>>, wanted: Seq<Seq<char>>) -> Seq<bool> {
    Seq::new(wanted.len(), |j: int| position(names, wanted[j]) is None)
}

/// The values of a row under the wanted columns, in the order wanted. A
/// name that several columns bear stands for the first of them.
pub open spec fn project(names: Seq<Seq<char>>, wanted: Seq<Seq<char>>, row: Seq<Seq<char>>) -> Seq<
    Seq<char>,
> {
    Seq::new(wanted.len(), |j: int| row[position(names, wanted[j]).unwrap()])
}

/// The test that a row holds exactly `value` at index `at`.
pub open spec fn holds(at: int, value: Seq<char>) -> spec_fn(Seq<Seq<char>>) -> bool {
    |row: Seq<Seq<char>>| row[at] == value
}

/// The rows that hold `value` at index `at`, in their order.
pub open spec fn matching(rows: Seq<Seq<Seq<char>>>, at: int, value: Seq<char>) -> Seq<
    Seq<Seq<char>>,
> {
    rows.filter(holds(at, value))
}

/// Each of the rows under the wanted columns.
pub open spec fn projected(
    names: Seq<Seq<char>>,
    wanted: Seq<Seq<char>>,
    rows: Seq<Seq<Seq<char>>>,
) -> Seq<Seq<Seq<char>>> {
    Seq::new(rows.len(), |i: int| project(names, wanted, rows[i]))
}

/// What a query on one table returns, or why it returns nothing: the wanted
/// columns are resolved first, from left to right, then the column of the
/// filter; the rows that pass the filter are projected in their order.
pub open spec fn select_rows(
    table: TableView,
    wanted: Seq<Seq<char>>,
    filter: Option<(Seq<char>, Seq<char>)>,
) -> Result<Seq<Seq<Seq<char>>>, DbErrorView> {
    let names = table.column_names();
    match first_true(missing(names, wanted)) {
        Some(j) => Err(DbErrorView::ColumnNotFound { column: wanted[j] }),
        None => match filter {
            None => Ok(projected(names, wanted, table.rows)),
            Some((column, value)) => match position(names, column) {
                None => Err(DbErrorView::ColumnNotFound { column }),
                Some(at) => Ok(projected(names, wanted, matching(table.rows, at, value))),
            },
        },
    }
}

/// What a query on the catalog returns, or why it returns nothing.
pub open spec fn select_from(
    tables: Seq<TableView>,
    name: Seq<char>,
    wanted: Seq<Seq<char>>,
    filter: Option<(Seq<char>, Seq<char>)>,
) -> Result<Seq<Seq<Seq<char>>>, DbErrorView> {
    match table_named(tables, name) {
        None => Err(DbErrorView::TableNotFound { table: name }),
        Some(table) => select_rows(table, wanted, filter),
    }
}

/// Where a name occurs in a list of names, and where it does not.
pub proof fn lemma_position(names: Seq<Seq<char>>, name: Seq<char>)
    ensures
        match position(names, name) {
            Some(i) => 0 <= i < names.len() && names[i] == name && forall|j: int|
                0 <= j < i ==> names[j] != name,
            None => forall|i: int| 0 <= i < names.len() ==> names[i] != name,
        },
{
    let flags = hits(names, name);
    lemma_first_true(flags);
    if position(names, name) is None {
        assert forall|i: int| 0 <= i < names.len() implies names[i] != name by {
            assert(!flags[i]);
        }
    } else {
        let i = position(names, name).unwrap();
        assert forall|j: int| 0 <= j < i implies names[j] != name by {
            assert(!flags[j]);
        }
    }
}

/// In a catalog a table is found under its own name, and under no other.
pub proof fn lemma_table_named(tables: Seq<TableView>, i: int)
    requires
        distinct_names(tables),
        0 <= i < tables.len(),
    ensures
        position(table_names(tables), tables[i].name) == Some(i),
        table_named(tables, tables[i].name) == Some(tables[i]),
{
    let names = table_names(tables);
    lemma_position(names, tables[i].name);
    let flags = hits(names, tables[i].name);
    assert(flags[i]);
    lemma_first_true(flags);
    let k = position(names, tables[i].name).unwrap();
    if k < i {
        assert(names[k] == tables[k].name);
    }
}

/// A table can be created exactly when no table has its name yet, and it
/// is then put last in the catalog.
pub proof fn lemma_create_table(tables: Seq<TableView>, name: Seq<char>, columns: Seq<ColumnView>)
    ensures
        create_table(tables, name, columns) is Ok <==> !table_names(tables).contains(name),
        create_table(tables, name, columns) matches Ok(after) ==> after == tables.push(
            empty_table(name, columns),
        ),
        create_table(tables, name, columns) matches Err(e) ==> e == (DbErrorView::TableExists {
            table: name,
        }),
{
    lemma_position(table_names(tables), name);
}

/// A table that was created cannot be created again: the second attempt
/// fails with `TableExists`, whatever its columns, and the table is found
/// as it was created, without rows.
pub proof fn lemma_create_twice(
    tables: Seq<TableView>,
    name: Seq<char>,
    columns: Seq<ColumnView>,
    again: Seq<ColumnView>,
)
    requires
        valid_catalog(tables),
        create_table(tables, name, columns) is Ok,
    ensures
        create_table(tables, name, columns) matches Ok(after) && valid_catalog(after)
            && table_named(after, name) == Some(empty_table(name, columns)) && create_table(
            after,
            name,
            again,
        ) == Err::<Seq<TableView>, DbErrorView>(DbErrorView::TableExists { table: name }),
{
    let after = tables.push(empty_table(name, columns));
    lemma_position(table_names(tables), name);
    assert forall|i: int, j: int| 0 <= i < j < after.len() implies after[i].name
        != after[j].name by {
        if j == tables.len() {
            assert(table_names(tables)[i] == tables[i].name);
        }
    }
    assert forall|i: int| 0 <= i < after.len() implies (#[trigger] after[i]).rows_aligned() by {
        if i < tables.len() {
            assert(tables[i].rows_aligned());
        }
    }
    lemma_table_named(after, tables.len() as int);
}

/// Creating a table, or failing to, leaves every table of another name as
/// it was: it is found as before, and a query on it returns what it
/// returned before.
pub proof fn lemma_create_keeps_others(
    tables: Seq<TableView>,
    name: Seq<char>,
    columns: Seq<ColumnView>,
    other: Seq<char>,
    wanted: Seq<Seq<char>>,
    filter: Option<(Seq<char>, Seq<char>)>,
)
    requires
        other != name,
    ensures
        ({
            let after = match create_table(tables, name, columns) {
                Ok(after) => after,
                Err(_) => tables,
            };
            &&& table_named(after, other) == table_named(tables, other)
            &&& select_from(after, other, wanted, filter) == select_from(
                tables,
                other,
                wanted,
                filter,
            )
        }),
{
    if create_table(tables, name, columns) is Ok {
        let after = tables.push(empty_table(name, columns));
        lemma_position(table_names(tables), other);
        lemma_position(table_names(after), other);
        match position(table_names(tables), other) {
            Some(i) => {
                assert(table_names(after)[i] == other);
                assert forall|j: int| 0 <= j < i implies !hits(table_names(after), other)[j] by {
                    assert(table_names(after)[j] == table_names(tables)[j]);
                }
                lemma_first_true_at(hits(table_names(after), other), i);
            },
            None => {
                let flags = hits(table_names(after), other);
                assert forall|i: int| 0 <= i < after.len() implies !flags[i] by {
                    if i < tables.len() {
                        assert(table_names(after)[i] == table_names(tables)[i]);
                    }
                }
                assert(forall|i: int| !is_first(flags, i));
            },
        }
    }
}

/// A row with the wrong number of values is refused with `ArityMismatch`,
/// which reports the number of columns and the number of values.
pub proof fn lemma_insert_arity(tables: Seq<TableView>, name: Seq<char>, values: Seq<Seq<char>>)
    requires
        table_named(tables, name) is Some,
        values.len() != table_named(tables, name).unwrap().columns.len(),
    ensures
        insert_into(tables, name, values) == Err::<Seq<TableView>, DbErrorView>(
            DbErrorView::ArityMismatch {
                expected: table_named(tables, name).unwrap().columns.len(),
                actual: values.len(),
            },
        ),
{
}

/// A row with the right number of values is refused exactly when it offers
/// an integer column a value that is no integer literal; the error names
/// such a value and its column.
pub proof fn lemma_insert_type(tables: Seq<TableView>, name: Seq<char>, values: Seq<Seq<char>>)
    requires
        table_named(tables, name) is Some,
        values.len() == table_named(tables, name).unwrap().columns.len(),
    ensures
        ({
            let columns = table_named(tables, name).unwrap().columns;
            let refused = exists|i: int|
                0 <= i < columns.len() && columns[i].data_type == DataType::Integer
                    && !is_integer_literal(values[i]);
            match insert_into(tables, name, values) {
                Ok(_) => !refused,
                Err(e) => refused && exists|i: int|
                    0 <= i < columns.len() && columns[i].data_type == DataType::Integer
                        && !is_integer_literal(values[i]) && e == (DbErrorView::TypeMismatch {
                        value: values[i],
                        column: columns[i].name,
                    }),
            }
        }),
{
    let columns = table_named(tables, name).unwrap().columns;
    let flags = mismatches(columns, values);
    lemma_first_true(flags);
    match first_true(flags) {
        Some(i) => {
            assert(flags[i]);
        },
        None => {
            assert forall|i: int| 0 <= i < columns.len() implies !(columns[i].data_type
                == DataType::Integer && !is_integer_literal(values[i])) by {
                assert(!flags[i]);
            }
        },
    }
}

/// A row that is accepted goes to the end of its table as it was given;
/// the table is found under its name, and the catalog stays valid.
pub proof fn lemma_insert_appends(tables: Seq<TableView>, name: Seq<char>, values: Seq<Seq<char>>)
    requires
        valid_catalog(tables),
        insert_into(tables, name, values) is Ok,
    ensures
        insert_into(tables, name, values) matches Ok(after) && valid_catalog(after) && after.len()
            == tables.len() && table_named(after, name) == Some(
            with_row(table_named(tables, name).unwrap(), values),
        ),
        with_row(table_named(tables, name).unwrap(), values).rows.last() == values,
{
    let i = position(table_names(tables), name).unwrap();
    lemma_position(table_names(tables), name);
    let after = tables.update(i, with_row(tables[i], values));
    assert forall|a: int, b: int| 0 <= a < b < after.len() implies after[a].name
        != after[b].name by {
        assert(after[a].name == tables[a].name);
        assert(after[b].name == tables[b].name);
    }
    assert forall|k: int| 0 <= k < after.len() implies (#[trigger] after[k]).rows_aligned() by {
        assert(tables[k].rows_aligned());
    }
    lemma_table_named(after, i);
}

/// Whether every wanted name is among `names`.
pub open spec fn all_present(names: Seq<Seq<char>>, wanted: Seq<Seq<char>>) -> bool {
    forall|j: int| 0 <= j < wanted.len() ==> names.contains(#[trigger] wanted[j])
}

/// A name has a position among names exactly when it is one of them.
pub proof fn lemma_position_contains(names: Seq<Seq<char>>, name: Seq<char>)
    ensures
        position(names, name) is Some <==> names.contains(name),
{
    lemma_position(names, name);
}

/// No wanted column is missing exactly when every wanted name is the name
/// of a column; else the first wanted name that is not is the one found
/// missing.
pub proof fn lemma_missing(names: Seq<Seq<char>>, wanted: Seq<Seq<char>>)
    ensures
        match first_true(missing(names, wanted)) {
            None => all_present(names, wanted),
            Some(j) => 0 <= j < wanted.len() && !names.contains(wanted[j]) && all_present(
                names,
                wanted.take(j),
            ),
        },
{
    let flags = missing(names, wanted);
    lemma_first_true(flags);
    match first_true(flags) {
        None => {
            assert forall|j: int| 0 <= j < wanted.len() implies names.contains(
                #[trigger] wanted[j],
            ) by {
                assert(!flags[j]);
                lemma_position_contains(names, wanted[j]);
            }
        },
        Some(j) => {
            lemma_position_contains(names, wanted[j]);
            assert forall|k: int| 0 <= k < j implies names.contains(#[trigger] wanted.take(j)[k]) by {
                assert(!flags[k]);
                lemma_position_contains(names, wanted[k]);
            }
        },
    }
}

/// A query that wants a column that the table lacks is refused with
/// `ColumnNotFound`, which names the first such column wanted, whatever the
/// filter.
pub proof fn lemma_select_unknown_column(
    table: TableView,
    wanted: Seq<Seq<char>>,
    filter: Option<(Seq<char>, Seq<char>)>,
)
    requires
        !all_present(table.column_names(), wanted),
    ensures
        select_rows(table, wanted, filter) matches Err(DbErrorView::ColumnNotFound { column })
            && wanted.contains(column) && !table.column_names().contains(column),
{
    lemma_missing(table.column_names(), wanted);
}

/// Without a filter a query returns every row, in the order of insertion,
/// each under the wanted columns.
pub proof fn lemma_select_all(table: TableView, wanted: Seq<Seq<char>>)
    requires
        all_present(table.column_names(), wanted),
    ensures
        select_rows(table, wanted, None) matches Ok(rows) && rows.len() == table.rows.len()
            && forall|i: int|
            0 <= i < rows.len() ==> #[trigger] rows[i] == project(
                table.column_names(),
                wanted,
                table.rows[i],
            ),
{
    lemma_missing(table.column_names(), wanted);
}

/// A query for all the columns of a table, in their order and without a
/// filter, returns the rows as they were inserted, provided no two columns
/// share a name.
pub proof fn lemma_select_whole(table: TableView)
    requires
        table.rows_aligned(),
        forall|i: int, j: int|
            0 <= i < j < table.columns.len() ==> table.columns[i].name != table.columns[j].name,
    ensures
        select_rows(table, table.column_names(), None) == Ok::<Seq<Seq<Seq<char>>>, DbErrorView>(
            table.rows,
        ),
{
    let names = table.column_names();
    assert forall|j: int| 0 <= j < names.len() implies position(names, names[j]) == Some(j) by {
        lemma_position(names, names[j]);
        let flags = hits(names, names[j]);
        assert(flags[j]);
        lemma_first_true(flags);
        let k = position(names, names[j]).unwrap();
        if k < j {
            assert(table.columns[k].name != table.columns[j].name);
        }
    }
    assert(forall|j: int| !is_first(missing(names, names), j));
    assert forall|i: int| 0 <= i < table.rows.len() implies project(names, names, table.rows[i])
        == table.rows[i] by {
        assert(table.rows[i].len() == names.len());
        assert(project(names, names, table.rows[i]) =~= table.rows[i]);
    }
    assert(projected(names, names, table.rows) =~= table.rows);
}

/// A filter on a column that the table lacks is refused with
/// `ColumnNotFound`, which names the column.
pub proof fn lemma_select_unknown_filter(
    table: TableView,
    wanted: Seq<Seq<char>>,
    column: Seq<char>,
    value: Seq<char>,
)
    requires
        all_present(table.column_names(), wanted),
        !table.column_names().contains(column),
    ensures
        select_rows(table, wanted, Some((column, value))) == Err::<
            Seq<Seq<Seq<char>>>,
            DbErrorView,
        >(DbErrorView::ColumnNotFound { column }),
{
    lemma_missing(table.column_names(), wanted);
    lemma_position_contains(table.column_names(), column);
}

/// A filter that no row passes gives an empty result, not an error.
pub proof fn lemma_select_no_match(
    table: TableView,
    wanted: Seq<Seq<char>>,
    column: Seq<char>,
    value: Seq<char>,
)
    requires
        all_present(table.column_names(), wanted),
        table.column_names().contains(column),
        forall|i: int|
            0 <= i < table.rows.len() ==> (#[trigger] table.rows[i])[position(
                table.column_names(),
                column,
            ).unwrap()] != value,
    ensures
        select_rows(table, wanted, Some((column, value))) == Ok::<Seq<Seq<Seq<char>>>, DbErrorView>(
            Seq::empty(),
        ),
{
    lemma_missing(table.column_names(), wanted);
    lemma_position_contains(table.column_names(), column);
    let at = position(table.column_names(), column).unwrap();
    table.rows.lemma_all_neg_filter_empty(holds(at, value));
    assert(matching(table.rows, at, value) =~= Seq::empty());
    assert(projected(table.column_names(), wanted, Seq::empty()) =~= Seq::empty());
}

/// The rows that pass a filter keep their order: a row that is added last
/// comes last among them, if it passes at all.
pub proof fn lemma_matching_push(
    rows: Seq<Seq<Seq<char>>>,
    row: Seq<Seq<char>>,
    at: int,
    value: Seq<char>,
)
    ensures
        matching(rows.push(row), at, value) == if row[at] == value {
            matching(rows, at, value).push(row)
        } else {
            matching(rows, at, value)
        },
{
    rows.lemma_filter_push(row, holds(at, value));
}

/// Looks a name up among the names of the tables.
pub fn find_table(tables: &Vec<Table>, name: &str) -> (found: Option<usize>)
    ensures
        match found {
            Some(i) => i < tables.len() && position(table_names(tables.deep_view()), name@) == Some(
                i as int,
            ),
            None => position(table_names(tables.deep_view()), name@) is None,
        },
{
    let wanted = name.to_owned();
    let ghost flags = hits(table_names(tables.deep_view()), name@);
    let mut i: usize = 0;
    while i < tables.len()
        invariant
            i <= tables.len(),
            wanted@ == name@,
            flags == hits(table_names(tables.deep_view()), name@),
            forall|j: int| 0 <= j < i ==> !flags[j],
        decreases tables.len() - i,
    {
        if tables[i].name == wanted {
            proof {
                lemma_first_true_at(flags, i as int);
            }
            return Some(i);
        }
        i += 1;
    }
    proof {
        assert(forall|j: int| !is_first(flags, j));
    }
    None
}

/// Looks a name up among the names of the columns.
pub fn find_column(columns: &Vec<Column>, name: &String) -> (found: Option<usize>)
    ensures
        match found {
            Some(i) => i < columns.len() && position(names_of(columns.deep_view()), name@) == Some(
                i as int,
            ),
            None => position(names_of(columns.deep_view()), name@) is None,
        },
{
    let ghost flags = hits(names_of(columns.deep_view()), name@);
    let mut i: usize = 0;
    while i < columns.len()
        invariant
            i <= columns.len(),
            flags == hits(names_of(columns.deep_view()), name@),
            forall|j: int| 0 <= j < i ==> !flags[j],
        decreases columns.len() - i,
    {
        if columns[i].name == *name {
            proof {
                lemma_first_true_at(flags, i as int);
            }
            return Some(i);
        }
        i += 1;
    }
    proof {
        assert(forall|j: int| !is_first(flags, j));
    }
    None
}

} // verus!
