//! What the rows are that `INSERT` stores.
use vstd::prelude::*;

use crate::query::ast::{ExprV, StatementV};
use crate::query::laws::lemma_rows_only_reserve;
use crate::query::semantics::{
    executed, last_named, ordered, reordered, stored_row, stored_rows, stored_values, stranger,
};
use crate::query::typed_laws::{fits_column, law_literals_keep_their_value, stands_for};
use crate::query::variables::SystemVariablesV;
use crate::storage::model::{column_place, StoreV};
use crate::storage::log::PlacedRow;
use crate::storage::value::{ColumnSchemaV, TableSchemaV, ValueV};

verus! {

/// Whether `e` is what `(names) VALUES (values)` gives for a column: without
/// names the value at the column's own place, and with names the last value
/// given under the column's name.
pub open spec fn gives(
    names: Option<Seq<Seq<char>>>,
    values: Seq<ExprV>,
    c: int,
    column: Seq<char>,
    e: ExprV,
) -> bool {
    match names {
        None => 0 <= c < values.len() && values[c] == e,
        Some(ns) => exists|i: int|
            0 <= i < values.len() && values[i] == e && #[trigger] is_last_named(ns, column, i),
    }
}

/// Whether `i` is the last place where `name` stands in `names`.
pub open spec fn is_last_named(names: Seq<Seq<char>>, name: Seq<char>, i: int) -> bool {
    &&& 0 <= i < names.len()
    &&& names[i] == name
    &&& forall|j: int| i < j < names.len() ==> #[trigger] names[j] != name
}

/// Whether `v` is what column `c` stores for the expression `e`: what the
/// literal stands for, but for a `NULL` a number where the column counts, and
/// nothing where it takes no `NULL`.
pub open spec fn stored_as(schema: TableSchemaV, c: ColumnSchemaV, e: ExprV, v: ValueV) -> bool {
    if e == ExprV::Null && c.auto_increment {
        v is Int
    } else {
        &&& stands_for(e, c.column_type, v)
        &&& v == ValueV::Null ==> c.nullable && schema.primary_key != Some(c.name)
    }
}

/// Whether a stored row holds, in every column, what its value list gives for
/// that column. Only a column that counts may be given nothing.
pub open spec fn holds_its_values(
    schema: TableSchemaV,
    names: Option<Seq<Seq<char>>>,
    values: Seq<ExprV>,
    row: Seq<ValueV>,
) -> bool {
    &&& row.len() == schema.columns.len()
    &&& names is None ==> values.len() == row.len()
    &&& names matches Some(ns) ==> ns.len() == values.len() && forall|i: int|
        0 <= i < ns.len() ==> #[trigger] column_place(schema.columns, ns[i]) is Some
    &&& forall|c: int|
        0 <= c < row.len() && (names is None || is_first_called(
            schema.columns,
            c,
        )) ==> #[trigger] cell_holds(schema, names, values, c, row[c])
}

/// Whether no column before `c` has the same name.
pub open spec fn is_first_called(columns: Seq<ColumnSchemaV>, c: int) -> bool {
    forall|j: int| 0 <= j < c ==> (#[trigger] columns[j]).name != columns[c].name
}

/// Whether `v` is what column `c` stores of a value list.
pub open spec fn cell_holds(
    schema: TableSchemaV,
    names: Option<Seq<Seq<char>>>,
    values: Seq<ExprV>,
    c: int,
    v: ValueV,
) -> bool {
    let column = schema.columns[c];
    ||| exists|e: ExprV|
        #[trigger] gives(names, values, c, column.name, e) && stored_as(schema, column, e, v)
    ||| {
        &&& names matches Some(ns) && !ns.contains(column.name)
        &&& column.auto_increment
        &&& v is Int
    }
}

proof fn lemma_values_as_stored(
    s: StoreV,
    table: Seq<char>,
    schema: TableSchemaV,
    exprs: Seq<ExprV>,
    n: int,
)
    requires
        0 <= n <= schema.columns.len(),
    ensures
        stored_values(s, table, schema, exprs, n).1 matches Ok(row) ==> row.len() == n && forall|
            c: int,
        |
            0 <= c < n ==> stored_as(schema, schema.columns[c], exprs[c], #[trigger] row[c]),
    decreases n,
{
    if n > 0 {
        lemma_values_as_stored(s, table, schema, exprs, n - 1);
        let c = schema.columns[n - 1];
        law_literals_keep_their_value(exprs[n - 1], c.column_type, c.name);
    }
}

proof fn lemma_last_named(names: Seq<Seq<char>>, name: Seq<char>, n: int)
    requires
        0 <= n <= names.len(),
    ensures
        match last_named(names, name, n) {
            Some(i) => 0 <= i < n && names[i] == name && forall|j: int|
                i < j < n ==> #[trigger] names[j] != name,
            None => forall|j: int| 0 <= j < n ==> #[trigger] names[j] != name,
        },
    decreases n,
{
    if n > 0 && names[n - 1] != name {
        lemma_last_named(names, name, n - 1);
    }
}

proof fn lemma_no_stranger(columns: Seq<ColumnSchemaV>, names: Seq<Seq<char>>, i: int)
    requires
        0 <= i,
        stranger(columns, names, i) is None,
    ensures
        forall|j: int| i <= j < names.len() ==> #[trigger] column_place(columns, names[j]) is Some,
    decreases names.len() - i,
{
    if i < names.len() {
        lemma_no_stranger(columns, names, i + 1);
    }
}

proof fn lemma_place_is_first(columns: Seq<ColumnSchemaV>, name: Seq<char>, i: int, c: int)
    requires
        0 <= i <= c < columns.len(),
        columns[c].name == name,
        forall|j: int| 0 <= j < c ==> (#[trigger] columns[j]).name != name,
    ensures
        crate::storage::model::column_from(columns, name, i) == Some(c),
    decreases c - i,
{
    if i < c {
        lemma_place_is_first(columns, name, i + 1, c);
    }
}

/// Whether `e` is what stands in column `c` of the reordered values.
spec fn fits_place(
    columns: Seq<ColumnSchemaV>,
    names: Seq<Seq<char>>,
    values: Seq<ExprV>,
    c: int,
    e: ExprV,
) -> bool {
    ||| gives(Some(names), values, c, columns[c].name, e)
    ||| !names.contains(columns[c].name) && columns[c].auto_increment && e == ExprV::Null
}

proof fn lemma_reordered(
    columns: Seq<ColumnSchemaV>,
    names: Seq<Seq<char>>,
    values: Seq<ExprV>,
    n: int,
)
    requires
        0 <= n <= columns.len(),
        names.len() == values.len(),
    ensures
        reordered(columns, names, values, n) matches Ok(es) ==> es.len() == n && forall|c: int|
            0 <= c < n && is_first_called(columns, c) ==> fits_place(
                columns,
                names,
                values,
                c,
                #[trigger] es[c],
            ),
    decreases n,
{
    if n > 0 {
        lemma_reordered(columns, names, values, n - 1);
        let c = n - 1;
        let name = columns[c].name;
        lemma_last_named(names, name, names.len() as int);
        if is_first_called(columns, c) {
            lemma_place_is_first(columns, name, 0, c);
            match last_named(names, name, names.len() as int) {
                Some(i) => {
                    assert(is_last_named(names, name, i));
                    let e = values[i];
                    let given = Some(names);
                    assert(given->Some_0 == names);
                    assert(is_last_named(given->Some_0, name, i));
                    assert(gives(given, values, c, name, e));
                    assert(gives(Some(names), values, c, name, values[i]));
                },
                None => {},
            }
        }
    }
}

proof fn lemma_row_as_stored(
    s: StoreV,
    table: Seq<char>,
    schema: TableSchemaV,
    names: Option<Seq<Seq<char>>>,
    values: Seq<ExprV>,
)
    ensures
        stored_row(s, table, schema, names, values).1 matches Ok(row) ==> holds_its_values(
            schema,
            names,
            values,
            row,
        ),
{
    match stored_row(s, table, schema, names, values).1 {
        Ok(row) => {
            let es = ordered(schema.columns, names, values)->Ok_0;
            lemma_values_as_stored(s, table, schema, es, es.len() as int);
            match names {
                Some(ns) => {
                    lemma_no_stranger(schema.columns, ns, 0);
                    lemma_reordered(schema.columns, ns, values, schema.columns.len() as int);
                },
                None => {},
            }
            assert forall|c: int|
                0 <= c < row.len() && (names is None || is_first_called(
                    schema.columns,
                    c,
                )) implies #[trigger] cell_holds(schema, names, values, c, row[c]) by {
                assert(stored_as(schema, schema.columns[c], es[c], row[c]));
                match names {
                    None => {
                        assert(gives(names, values, c, schema.columns[c].name, es[c]));
                    },
                    Some(ns) => {
                        assert(fits_place(schema.columns, ns, values, c, es[c]));
                    },
                }
            }
        },
        Err(_) => {},
    }
}

proof fn lemma_rows_as_stored(
    s: StoreV,
    table: Seq<char>,
    schema: TableSchemaV,
    names: Option<Seq<Seq<char>>>,
    rows: Seq<Seq<ExprV>>,
    n: int,
)
    requires
        0 <= n <= rows.len(),
    ensures
        stored_rows(s, table, schema, names, rows, n).1 matches Ok(placed) ==> placed.len() == n
            && forall|i: int|
            0 <= i < n ==> holds_its_values(schema, names, rows[i], (#[trigger] placed[i]).row),
    decreases n,
{
    if n > 0 {
        lemma_rows_as_stored(s, table, schema, names, rows, n - 1);
        let s1 = stored_rows(s, table, schema, names, rows, n - 1).0;
        lemma_row_as_stored(s1, table, schema, names, rows[n - 1]);
    }
}

proof fn lemma_each_appended(s: StoreV, rows: Seq<PlacedRow>, table: Seq<char>, counted: bool, n: int)
    requires
        s.tables.contains_key(table),
        0 <= n <= rows.len(),
        forall|i: int| 0 <= i < rows.len() ==> (#[trigger] rows[i]).table == table,
        s.insert_each(rows, counted, n).1 is None,
    ensures
        ({
            let after = s.insert_each(rows, counted, n).0;
            &&& after.tables.contains_key(table)
            &&& after.tables[table].rows == s.tables[table].rows + Seq::new(
                n as nat,
                |i: int| rows[i].row,
            )
        }),
    decreases n,
{
    if n > 0 {
        lemma_each_appended(s, rows, table, counted, n - 1);
        let before = s.insert_each(rows, counted, n - 1).0;
        assert(rows[n - 1].table == table);
        assert(before.tables[table].rows.push(rows[n - 1].row) =~= s.tables[table].rows + Seq::new(
            n as nat,
            |i: int| rows[i].row,
        ));
    } else {
        assert(s.tables[table].rows =~= s.tables[table].rows + Seq::new(
            0,
            |i: int| rows[i].row,
        ));
    }
}

/// An `INSERT` that succeeds puts one row per value list behind the rows of
/// its table, in order, each holding in every column exactly what its value
/// list gives for it: a text in a `VARCHAR` column as that text, a number in an
/// `INT` column as that number. It reports the number of rows and returns none.
pub proof fn law_inserted_values_are_stored(
    s: StoreV,
    v: SystemVariablesV,
    table: Seq<char>,
    columns: Option<Seq<Seq<char>>>,
    rows: Seq<Seq<ExprV>>,
    buffered: bool,
)
    ensures
        ({
            let e = executed(StatementV::Insert { table, columns, rows }, s, v, buffered);
            e.result matches Ok(r) ==> {
                let before = s.tables[table];
                let after = e.store.tables[table];
                &&& s.tables.contains_key(table)
                &&& e.store.tables.contains_key(table)
                &&& r.affected == rows.len()
                &&& r.rows.len() == 0
                &&& r.columns.len() == 0
                &&& after.rows.len() == before.rows.len() + rows.len()
                &&& forall|i: int|
                    0 <= i < before.rows.len() ==> #[trigger] after.rows[i] == before.rows[i]
                &&& forall|i: int|
                    0 <= i < rows.len() ==> holds_its_values(
                        before.schema,
                        columns,
                        #[trigger] rows[i],
                        after.rows[before.rows.len() + i],
                    )
            }
        }),
{
    let e = executed(StatementV::Insert { table, columns, rows }, s, v, buffered);
    if e.result is Ok {
        let t = s.tables[table];
        let n = rows.len() as int;
        lemma_rows_only_reserve(s, table, t.schema, columns, rows, n);
        lemma_rows_as_stored(s, table, t.schema, columns, rows, n);
        let (s1, placed) = stored_rows(s, table, t.schema, columns, rows, n);
        let p = placed->Ok_0;
        assert(s1.tables.dom().contains(table));
        lemma_each_appended(s1, p, table, !buffered, n);
        let after = e.store.tables[table].rows;
        assert forall|i: int| 0 <= i < rows.len() implies holds_its_values(
            t.schema,
            columns,
            #[trigger] rows[i],
            after[t.rows.len() + i],
        ) by {
            assert(after[t.rows.len() + i] == p[i].row);
        }
    }
}

/// In particular, in a table of `VARCHAR` and `INT` columns the texts and
/// numbers of a value list without names are stored as they are.
pub proof fn law_texts_and_numbers_are_stored_as_they_are(
    s: StoreV,
    v: SystemVariablesV,
    table: Seq<char>,
    rows: Seq<Seq<ExprV>>,
    buffered: bool,
    i: int,
    c: int,
)
    requires
        0 <= i < rows.len(),
        0 <= c < rows[i].len(),
    ensures
        ({
            let e = executed(StatementV::Insert { table, columns: None, rows }, s, v, buffered);
            e.result is Ok ==> {
                let kept = e.store.tables[table].rows[s.tables[table].rows.len() + i][c];
                let t = s.tables[table].schema.columns[c].column_type;
                &&& rows[i][c] matches ExprV::String(x) ==> (t is Varchar ==> kept
                    == ValueV::Varchar(x))
                &&& rows[i][c] matches ExprV::Integer(x) ==> (t is Int ==> kept == ValueV::Int(x))
            }
        }),
{
    let e = executed(StatementV::Insert { table, columns: None, rows }, s, v, buffered);
    if e.result is Ok {
        law_inserted_values_are_stored(s, v, table, None, rows, buffered);
        let t = s.tables[table];
        let row = e.store.tables[table].rows[t.rows.len() + i];
        assert(holds_its_values(t.schema, None, rows[i], row));
        assert(cell_holds(t.schema, None, rows[i], c, row[c]));
    }
}

// ---------- what is taken ----------

/// Whether a column takes an expression: it fits the column's type, and is
/// `NULL` only where the column counts or takes `NULL`.
pub open spec fn takes(schema: TableSchemaV, c: ColumnSchemaV, e: ExprV) -> bool {
    &&& fits_column(e, c.column_type)
    &&& e == ExprV::Null ==> c.auto_increment || c.nullable && schema.primary_key != Some(c.name)
}

/// Whether a table takes a value list: without names one value for each
/// column, and with names one for each name, each name a column's, and each
/// column named that does not count.
pub open spec fn takes_values(
    schema: TableSchemaV,
    names: Option<Seq<Seq<char>>>,
    values: Seq<ExprV>,
) -> bool {
    match names {
        None => values.len() == schema.columns.len() && forall|c: int|
            0 <= c < values.len() ==> takes(schema, schema.columns[c], #[trigger] values[c]),
        Some(ns) => {
            &&& ns.len() == values.len()
            &&& forall|i: int|
                0 <= i < ns.len() ==> #[trigger] column_place(schema.columns, ns[i]) is Some
            &&& forall|c: int|
                0 <= c < schema.columns.len() ==> is_first_called(schema.columns, c)
                    && (ns.contains((#[trigger] schema.columns[c]).name)
                    || schema.columns[c].auto_increment)
            &&& forall|c: int, i: int|
                0 <= c < schema.columns.len() && #[trigger] is_last_named(
                    ns,
                    (#[trigger] schema.columns[c]).name,
                    i,
                ) ==> takes(schema, schema.columns[c], values[i])
        },
    }
}

/// Whether a table can count, if a column of it has to.
pub open spec fn can_count(s: StoreV, table: Seq<char>) -> bool {
    s.tables.contains_key(table) && s.tables[table].next is Some
}

proof fn lemma_values_taken(
    s: StoreV,
    table: Seq<char>,
    schema: TableSchemaV,
    exprs: Seq<ExprV>,
    n: int,
)
    requires
        0 <= n <= schema.columns.len(),
        exprs.len() == schema.columns.len(),
        forall|c: int|
            0 <= c < schema.columns.len() ==> takes(schema, schema.columns[c], #[trigger] exprs[c]),
        forall|c: int|
            0 <= c < schema.columns.len() && (#[trigger] schema.columns[c]).auto_increment
                ==> can_count(s, table),
    ensures
        stored_values(s, table, schema, exprs, n).1 is Ok,
        can_count(s, table) ==> can_count(stored_values(s, table, schema, exprs, n).0, table),
    decreases n,
{
    if n > 0 {
        lemma_values_taken(s, table, schema, exprs, n - 1);
        let c = schema.columns[n - 1];
        assert(takes(schema, c, exprs[n - 1]));
        law_literals_keep_their_value(exprs[n - 1], c.column_type, c.name);
    }
}

proof fn lemma_nobody_strange(columns: Seq<ColumnSchemaV>, names: Seq<Seq<char>>, i: int)
    requires
        0 <= i,
        forall|j: int| 0 <= j < names.len() ==> #[trigger] column_place(columns, names[j]) is Some,
    ensures
        stranger(columns, names, i) is None,
    decreases names.len() - i,
{
    if i < names.len() {
        assert(column_place(columns, names[i]) is Some);
        lemma_nobody_strange(columns, names, i + 1);
    }
}

proof fn lemma_reordered_taken(
    schema: TableSchemaV,
    names: Seq<Seq<char>>,
    values: Seq<ExprV>,
    n: int,
)
    requires
        0 <= n <= schema.columns.len(),
        takes_values(schema, Some(names), values),
    ensures
        reordered(schema.columns, names, values, n) matches Ok(es) && es.len() == n && forall|
            c: int,
        |
            0 <= c < n ==> takes(schema, schema.columns[c], #[trigger] es[c]),
    decreases n,
{
    if n > 0 {
        lemma_reordered_taken(schema, names, values, n - 1);
        let c = n - 1;
        let column = schema.columns[c];
        assert(is_first_called(schema.columns, c));
        lemma_last_named(names, column.name, names.len() as int);
        lemma_place_is_first(schema.columns, column.name, 0, c);
        match last_named(names, column.name, names.len() as int) {
            Some(i) => {
                assert(is_last_named(names, schema.columns[c].name, i));
                assert(takes(schema, schema.columns[c], values[i]));
            },
            None => {
                assert(!names.contains(column.name));
                assert(takes(schema, column, ExprV::Null));
            },
        }
    }
}

proof fn lemma_rows_taken(
    s: StoreV,
    table: Seq<char>,
    schema: TableSchemaV,
    names: Option<Seq<Seq<char>>>,
    rows: Seq<Seq<ExprV>>,
    n: int,
)
    requires
        0 <= n <= rows.len(),
        forall|i: int| 0 <= i < rows.len() ==> takes_values(schema, names, #[trigger] rows[i]),
        forall|c: int|
            0 <= c < schema.columns.len() && (#[trigger] schema.columns[c]).auto_increment
                ==> can_count(s, table),
    ensures
        stored_rows(s, table, schema, names, rows, n).1 is Ok,
        can_count(s, table) ==> can_count(stored_rows(s, table, schema, names, rows, n).0, table),
    decreases n,
{
    if n > 0 {
        lemma_rows_taken(s, table, schema, names, rows, n - 1);
        let s1 = stored_rows(s, table, schema, names, rows, n - 1).0;
        let values = rows[n - 1];
        assert(takes_values(schema, names, rows[n - 1]));
        match names {
            Some(ns) => {
                lemma_nobody_strange(schema.columns, ns, 0);
                lemma_reordered_taken(schema, ns, values, schema.columns.len() as int);
            },
            None => {},
        }
        let es = ordered(schema.columns, names, values)->Ok_0;
        lemma_values_taken(s1, table, schema, es, es.len() as int);
    }
}

proof fn lemma_keyless_rows_go_in(
    s: StoreV,
    rows: Seq<PlacedRow>,
    table: Seq<char>,
    counted: bool,
    n: int,
)
    requires
        s.tables.contains_key(table),
        s.tables[table].schema.key_place() is None,
        0 <= n <= rows.len(),
        forall|i: int|
            0 <= i < rows.len() ==> (#[trigger] rows[i]).table == table && rows[i].row.len()
                == s.tables[table].schema.columns.len(),
    ensures
        s.insert_each(rows, counted, n).1 is None,
        s.insert_each(rows, counted, n).0.tables.contains_key(table),
        s.insert_each(rows, counted, n).0.tables[table].schema == s.tables[table].schema,
    decreases n,
{
    if n > 0 {
        lemma_keyless_rows_go_in(s, rows, table, counted, n - 1);
        assert(rows[n - 1].table == table);
    }
}

/// An `INSERT` into a table that is there, of value lists that it takes, fails
/// for nothing but a primary key: without one it succeeds.
pub proof fn law_fitting_rows_are_inserted(
    s: StoreV,
    v: SystemVariablesV,
    table: Seq<char>,
    columns: Option<Seq<Seq<char>>>,
    rows: Seq<Seq<ExprV>>,
    buffered: bool,
)
    requires
        s.tables.contains_key(table),
        forall|i: int|
            0 <= i < rows.len() ==> takes_values(s.tables[table].schema, columns, #[trigger] rows[i]),
        forall|c: int|
            0 <= c < s.tables[table].schema.columns.len() && (
            #[trigger] s.tables[table].schema.columns[c]).auto_increment ==> can_count(s, table),
    ensures
        stored_rows(s, table, s.tables[table].schema, columns, rows, rows.len() as int).1 is Ok,
        s.tables[table].schema.key_place() is None ==> executed(
            StatementV::Insert { table, columns, rows },
            s,
            v,
            buffered,
        ).result is Ok,
{
    let t = s.tables[table];
    let n = rows.len() as int;
    lemma_rows_taken(s, table, t.schema, columns, rows, n);
    lemma_rows_only_reserve(s, table, t.schema, columns, rows, n);
    lemma_rows_as_stored(s, table, t.schema, columns, rows, n);
    let (s1, placed) = stored_rows(s, table, t.schema, columns, rows, n);
    let p = placed->Ok_0;
    assert(s1.tables.dom().contains(table));
    if t.schema.key_place() is None {
        assert forall|i: int| 0 <= i < p.len() implies (#[trigger] p[i]).table == table
            && p[i].row.len() == s1.tables[table].schema.columns.len() by {
            assert(holds_its_values(t.schema, columns, rows[i], p[i].row));
        }
        lemma_keyless_rows_go_in(s1, p, table, !buffered, p.len() as int);
    }
}

// ---------- counted columns ----------

/// How many of the first `n` value lists leave column `k` to be counted.
pub open spec fn counted_among(rows: Seq<Seq<ExprV>>, k: int, n: int) -> int
    decreases n,
{
    if n <= 0 {
        0
    } else {
        counted_among(rows, k, n - 1) + (if rows[n - 1][k] == ExprV::Null {
            1int
        } else {
            0int
        })
    }
}

/// Whether column `k` is the only one that counts.
pub open spec fn only_counted(columns: Seq<ColumnSchemaV>, k: int) -> bool {
    &&& 0 <= k < columns.len()
    &&& forall|c: int| 0 <= c < columns.len() ==> ((#[trigger] columns[c]).auto_increment <==> c == k)
}

/// Whether the table's next number is `next`.
pub open spec fn counts_on_from(s: StoreV, table: Seq<char>, next: int) -> bool {
    s.tables.contains_key(table) && s.tables[table].next == Some(next)
}

proof fn lemma_counted_value(
    s: StoreV,
    table: Seq<char>,
    schema: TableSchemaV,
    exprs: Seq<ExprV>,
    k: int,
    next: int,
    n: int,
)
    requires
        0 <= n <= schema.columns.len(),
        only_counted(schema.columns, k),
        counts_on_from(s, table, next),
        0 <= next < i64::MAX,
    ensures
        ({
            let (s1, r) = stored_values(s, table, schema, exprs, n);
            let used = n > k && exprs[k] == ExprV::Null;
            r matches Ok(row) ==> {
                &&& row.len() == n
                &&& counts_on_from(
                    s1,
                    table,
                    if used {
                        next + 1
                    } else {
                        next
                    },
                )
                &&& used ==> row[k] == ValueV::Int(next as i64)
            }
        }),
    decreases n,
{
    if n > 0 {
        lemma_counted_value(s, table, schema, exprs, k, next, n - 1);
        let c = schema.columns[n - 1];
        assert(schema.columns[n - 1].auto_increment <==> n - 1 == k);
        law_literals_keep_their_value(exprs[n - 1], c.column_type, c.name);
    }
}

proof fn lemma_counted_range(rows: Seq<Seq<ExprV>>, k: int, n: int)
    requires
        0 <= n,
    ensures
        0 <= counted_among(rows, k, n) <= n,
    decreases n,
{
    if n > 0 {
        lemma_counted_range(rows, k, n - 1);
    }
}

proof fn lemma_counted_rows(
    s: StoreV,
    table: Seq<char>,
    schema: TableSchemaV,
    rows: Seq<Seq<ExprV>>,
    k: int,
    next: int,
    n: int,
)
    requires
        0 <= n <= rows.len(),
        only_counted(schema.columns, k),
        counts_on_from(s, table, next),
        0 <= next,
        next + rows.len() < i64::MAX,
    ensures
        ({
            let (s1, r) = stored_rows(s, table, schema, None, rows, n);
            r matches Ok(placed) ==> {
                &&& placed.len() == n
                &&& counts_on_from(s1, table, next + counted_among(rows, k, n))
                &&& forall|i: int|
                    0 <= i < n && rows[i][k] == ExprV::Null ==> (#[trigger] placed[i]).row[k]
                        == ValueV::Int((next + counted_among(rows, k, i)) as i64)
            }
        }),
    decreases n,
{
    if n > 0 {
        lemma_counted_rows(s, table, schema, rows, k, next, n - 1);
        lemma_counted_range(rows, k, n - 1);
        let (s1, r) = stored_rows(s, table, schema, None, rows, n - 1);
        if r is Ok {
            lemma_counted_value(
                s1,
                table,
                schema,
                rows[n - 1],
                k,
                next + counted_among(rows, k, n - 1),
                schema.columns.len() as int,
            );
        }
    }
}

/// A counted column that is given `NULL` gets the table's next number, and the
/// next row that is given `NULL` the one behind it.
pub proof fn law_counted_columns_count_on(
    s: StoreV,
    v: SystemVariablesV,
    table: Seq<char>,
    rows: Seq<Seq<ExprV>>,
    buffered: bool,
    k: int,
    next: int,
)
    requires
        counts_on_from(s, table, next),
        only_counted(s.tables[table].schema.columns, k),
        0 <= next,
        next + rows.len() < i64::MAX,
    ensures
        ({
            let e = executed(StatementV::Insert { table, columns: None, rows }, s, v, buffered);
            e.result is Ok ==> forall|i: int|
                0 <= i < rows.len() && (#[trigger] rows[i])[k] == ExprV::Null
                    ==> e.store.tables[table].rows[s.tables[table].rows.len() + i][k]
                    == ValueV::Int((next + counted_among(rows, k, i)) as i64)
        }),
{
    let e = executed(StatementV::Insert { table, columns: None, rows }, s, v, buffered);
    if e.result is Ok {
        let t = s.tables[table];
        let n = rows.len() as int;
        lemma_rows_only_reserve(s, table, t.schema, None, rows, n);
        lemma_rows_as_stored(s, table, t.schema, None, rows, n);
        lemma_counted_rows(s, table, t.schema, rows, k, next, n);
        let (s1, placed) = stored_rows(s, table, t.schema, None, rows, n);
        let p = placed->Ok_0;
        assert(s1.tables.dom().contains(table));
        lemma_each_appended(s1, p, table, !buffered, n);
        let after = e.store.tables[table].rows;
        assert forall|i: int| 0 <= i < rows.len() && (#[trigger] rows[i])[k]
            == ExprV::Null implies after[t.rows.len() + i][k] == ValueV::Int(
            (next + counted_among(rows, k, i)) as i64,
        ) by {
            assert(after[t.rows.len() + i] == p[i].row);
        }
    }
}

} // verus!
