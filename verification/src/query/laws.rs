//! What holds of every statement.
use vstd::prelude::*;

use crate::query::ast::{CompareOp, ExprV, ShowStatementV, StatementV};
use crate::query::eval::{coerced, holds, value_order};
use crate::query::order::{ascending, in_order, lemma_in_order};
use crate::query::semantics::{
    cell_or_null, declared, executed, is_write, matching, name_rows, ordered, show, stored_rows,
    stored_values,
};
use crate::query::variables::SystemVariablesV;
use crate::storage::log::{EntryV, PlacedRow};
use crate::storage::model::{cell, last_with, lists, StoreV, TableV};
use crate::storage::store_laws::{
    all_keys_differ, counters_ahead, counters_in_range, keys_differ, law_batch_is_all_or_nothing,
    law_inserts_keep_counters_ahead, law_inserts_keep_keys_apart, law_log_keeps_pace,
    law_new_tables_count_from_one, law_other_changes_keep_keys_apart, law_reserved_value_is_new,
};
use crate::storage::api::same_but_counters;
use crate::storage::value::{ColumnType, TableSchemaV, ValueV};

verus! {

/// A store that a statement has only reserved values in.
pub open spec fn only_reserved(before: StoreV, after: StoreV) -> bool {
    &&& same_but_counters(after, before)
    &&& counters_ahead(before) && counters_in_range(before) ==> counters_ahead(after)
        && counters_in_range(after)
}

proof fn lemma_reserve_only(before: StoreV, after: StoreV, table: Seq<char>)
    requires
        only_reserved(before, after),
    ensures
        after.reserve(table) matches Ok((_, next)) ==> only_reserved(before, next),
{
    if counters_ahead(before) && counters_in_range(before) {
        law_reserved_value_is_new(after, table);
    }
    law_log_keeps_pace(
        after,
        before,
        EntryV::CreateDatabase { name: table },
        table,
    );
}

proof fn lemma_values_only_reserve(
    s: StoreV,
    start: StoreV,
    table: Seq<char>,
    schema: TableSchemaV,
    exprs: Seq<ExprV>,
    n: int,
)
    requires
        only_reserved(start, s),
    ensures
        only_reserved(start, stored_values(s, table, schema, exprs, n).0),
    decreases n,
{
    if 0 < n <= schema.columns.len() {
        lemma_values_only_reserve(s, start, table, schema, exprs, n - 1);
        lemma_reserve_only(start, stored_values(s, table, schema, exprs, n - 1).0, table);
    }
}

pub proof fn lemma_rows_only_reserve(
    s: StoreV,
    table: Seq<char>,
    schema: TableSchemaV,
    names: Option<Seq<Seq<char>>>,
    rows: Seq<Seq<ExprV>>,
    n: int,
)
    ensures
        only_reserved(s, stored_rows(s, table, schema, names, rows, n).0),
        stored_rows(s, table, schema, names, rows, n).1 matches Ok(placed) ==> {
            &&& placed.len() == (if 0 <= n <= rows.len() {
                n
            } else {
                0
            })
            &&& forall|i: int| 0 <= i < placed.len() ==> (#[trigger] placed[i]).table == table
        },
    decreases n,
{
    if 0 < n <= rows.len() {
        lemma_rows_only_reserve(s, table, schema, names, rows, n - 1);
        let (s1, front) = stored_rows(s, table, schema, names, rows, n - 1);
        if front is Ok {
            match ordered(schema.columns, names, rows[n - 1]) {
                Ok(exprs) => lemma_values_only_reserve(
                    s1,
                    s,
                    table,
                    schema,
                    exprs,
                    schema.columns.len() as int,
                ),
                Err(_) => {},
            }
        }
    }
}

/// A statement that fails leaves every table, row and database as it was; at
/// most it has used up `AUTO_INCREMENT` values. So does one whose change could
/// not be logged.
pub proof fn law_failed_statement_changes_no_rows(st: StatementV, s: StoreV, v: SystemVariablesV)
    ensures
        executed(st, s, v, false).result is Err ==> same_but_counters(
            executed(st, s, v, false).store,
            s,
        ),
        same_but_counters(executed(st, s, v, false).prepared, s),
{
    assert(same_but_counters(s, s));
    match st {
        StatementV::Insert { table, columns, rows } => {
            match s.table(table) {
                Ok(t) => lemma_rows_only_reserve(
                    s,
                    table,
                    t.schema,
                    columns,
                    rows,
                    rows.len() as int,
                ),
                Err(_) => {},
            }
        },
        _ => {},
    }
}

/// A statement that reads changes nothing.
pub proof fn law_reads_change_nothing(st: StatementV, s: StoreV, v: SystemVariablesV, b: bool)
    requires
        !is_write(st),
    ensures
        executed(st, s, v, b).store == s,
{
}

proof fn lemma_same_keys(a: StoreV, b: StoreV)
    requires
        same_but_counters(a, b),
        all_keys_differ(b),
    ensures
        all_keys_differ(a),
{
    assert forall|x: Seq<char>| #[trigger] a.tables.contains_key(x) implies keys_differ(
        a.tables[x],
    ) by {
        assert(b.tables.dom().contains(x));
        assert(keys_differ(b.tables[x]));
    }
}

/// No statement gives two rows of a table the same primary key.
pub proof fn law_statements_keep_keys_apart(
    st: StatementV,
    s: StoreV,
    v: SystemVariablesV,
    buffered: bool,
)
    requires
        all_keys_differ(s),
    ensures
        all_keys_differ(executed(st, s, v, buffered).store),
{
    match st {
        StatementV::Insert { table, columns, rows } => {
            match s.table(table) {
                Ok(t) => {
                    lemma_rows_only_reserve(s, table, t.schema, columns, rows, rows.len() as int);
                    let (s1, placed) = stored_rows(
                        s,
                        table,
                        t.schema,
                        columns,
                        rows,
                        rows.len() as int,
                    );
                    lemma_same_keys(s1, s);
                    match placed {
                        Ok(p) => law_inserts_keep_keys_apart(s1, p, !buffered, p.len() as int),
                        Err(_) => {},
                    }
                },
                Err(_) => {},
            }
        },
        StatementV::CreateTable { table, columns } => {
            match declared(columns, columns.len() as int) {
                Ok((cs, key)) => law_other_changes_keep_keys_apart(s, table, cs, key, false),
                Err(_) => {},
            }
        },
        StatementV::CreateDatabase { name, if_not_exists } => law_other_changes_keep_keys_apart(
            s,
            name,
            Seq::empty(),
            None,
            if_not_exists,
        ),
        StatementV::DropDatabase { name, if_exists } => law_other_changes_keep_keys_apart(
            s,
            name,
            Seq::empty(),
            None,
            if_exists,
        ),
        _ => {},
    }
}

/// Every statement leaves the `AUTO_INCREMENT` counters ahead of the rows.
pub proof fn law_statements_keep_counters_ahead(st: StatementV, s: StoreV, v: SystemVariablesV)
    requires
        counters_ahead(s),
        counters_in_range(s),
    ensures
        counters_ahead(executed(st, s, v, false).store),
        counters_in_range(executed(st, s, v, false).store),
{
    let after = executed(st, s, v, false).store;
    match st {
        StatementV::Insert { table, columns, rows } => {
            match s.table(table) {
                Ok(t) => {
                    lemma_rows_only_reserve(s, table, t.schema, columns, rows, rows.len() as int);
                    let (s1, placed) = stored_rows(
                        s,
                        table,
                        t.schema,
                        columns,
                        rows,
                        rows.len() as int,
                    );
                    match placed {
                        Ok(p) => law_inserts_keep_counters_ahead(s1, p, p.len() as int),
                        Err(_) => {},
                    }
                },
                Err(_) => {},
            }
        },
        StatementV::CreateTable { table, columns } => {
            match declared(columns, columns.len() as int) {
                Ok((cs, key)) => law_new_tables_count_from_one(s, table, cs, key),
                Err(_) => {},
            }
        },
        _ => {
            assert(after.tables == s.tables);
            assert forall|x: Seq<char>| #[trigger] after.tables.contains_key(x) implies s.tables.contains_key(
                x,
            ) by {}
        },
    }
}

proof fn lemma_rows_appended(s: StoreV, rows: Seq<PlacedRow>, table: Seq<char>)
    requires
        s.tables.contains_key(table),
        forall|i: int| 0 <= i < rows.len() ==> (#[trigger] rows[i]).table == table,
    ensures
        s.with_rows(rows).tables.dom() == s.tables.dom(),
        s.with_rows(rows).tables[table].rows == s.tables[table].rows + Seq::new(
            rows.len(),
            |i: int| rows[i].row,
        ),
        s.with_rows(rows).tables[table].schema == s.tables[table].schema,
        forall|x: Seq<char>|
            x != table ==> #[trigger] s.with_rows(rows).tables[x] == s.tables[x],
    decreases rows.len(),
{
    if rows.len() == 0 {
        assert(s.tables[table].rows + Seq::<Seq<ValueV>>::empty() =~= s.tables[table].rows);
        assert(Seq::new(rows.len(), |i: int| rows[i].row) =~= Seq::<Seq<ValueV>>::empty());
    } else {
        let front = rows.drop_last();
        assert forall|i: int| 0 <= i < front.len() implies (#[trigger] front[i]).table == table by {
            assert(rows[i].table == table);
        }
        lemma_rows_appended(s, front, table);
        let before = s.with_rows(front);
        assert(rows.last() == rows[rows.len() - 1]);
        assert(rows.last().table == table);
        assert(before.tables.dom().contains(table));
        assert(before.with_row(rows.last(), true).tables.dom() =~= s.tables.dom());
        let a = Seq::new(front.len(), |i: int| front[i].row);
        let b = Seq::new(rows.len(), |i: int| rows[i].row);
        assert((s.tables[table].rows + a).push(rows.last().row) =~= s.tables[table].rows + b);
    }
}

/// An `INSERT` that succeeds appends one row per value list to its table, in
/// order, and touches no other table.
pub proof fn law_insert_appends_its_rows(
    s: StoreV,
    v: SystemVariablesV,
    table: Seq<char>,
    columns: Option<Seq<Seq<char>>>,
    rows: Seq<Seq<ExprV>>,
)
    ensures
        ({
            let e = executed(StatementV::Insert { table, columns, rows }, s, v, false);
            let placed = stored_rows(
                s,
                table,
                s.tables[table].schema,
                columns,
                rows,
                rows.len() as int,
            ).1;
            e.result is Ok ==> {
                &&& s.tables.contains_key(table)
                &&& placed is Ok
                &&& placed->Ok_0.len() == rows.len()
                &&& e.store.tables.dom() == s.tables.dom()
                &&& e.store.tables[table].rows == s.tables[table].rows + Seq::new(
                    rows.len(),
                    |i: int| placed->Ok_0[i].row,
                )
                &&& e.store.databases == s.databases
                &&& forall|x: Seq<char>|
                    x != table && s.tables.contains_key(x) ==> (#[trigger] e.store.tables[x]).rows
                        == s.tables[x].rows
            }
        }),
{
    let e = executed(StatementV::Insert { table, columns, rows }, s, v, false);
    if e.result is Ok {
        let t = s.tables[table];
        lemma_rows_only_reserve(s, table, t.schema, columns, rows, rows.len() as int);
        let (s1, placed) = stored_rows(s, table, t.schema, columns, rows, rows.len() as int);
        let p = placed->Ok_0;
        law_batch_is_all_or_nothing(s1, p);
        assert(s1.tables.dom().contains(table));
        lemma_rows_appended(s1, p, table);
        lemma_rows_databases(s1, p);
        assert(Seq::new(p.len(), |i: int| p[i].row) =~= Seq::new(rows.len(), |i: int| p[i].row));
        assert forall|x: Seq<char>|
            x != table && s.tables.contains_key(x) implies (#[trigger] e.store.tables[x]).rows
            == s.tables[x].rows by {
            assert(s1.tables.dom().contains(x));
            assert(s1.with_rows(p).tables[x] == s1.tables[x]);
        }
    }
}

proof fn lemma_rows_databases(s: StoreV, rows: Seq<PlacedRow>)
    ensures
        s.with_rows(rows).databases == s.databases,
    decreases rows.len(),
{
    if rows.len() > 0 {
        lemma_rows_databases(s, rows.drop_last());
    }
}

// ---------- lookup and scan ----------

/// Whether a value may stand in a column of this type.
pub open spec fn of_type(v: ValueV, t: ColumnType) -> bool {
    match v {
        ValueV::Null => true,
        ValueV::Int(_) => t == ColumnType::Int,
        ValueV::Varchar(_) => t == ColumnType::Varchar,
        ValueV::Decimal(_, scale) => t == ColumnType::Decimal(scale),
        ValueV::Date(_) => t == ColumnType::Date,
    }
}

/// Within one column, values compare as equal exactly if they are the same.
pub proof fn lemma_equal_within_type(a: ValueV, b: ValueV, t: ColumnType)
    requires
        of_type(a, t),
        of_type(b, t),
        a != ValueV::Null,
        b != ValueV::Null,
    ensures
        (value_order(a, b) == 0) == (a == b),
{
}

/// Only values of a column's type are stored in it.
pub proof fn lemma_coerced_has_type(e: ExprV, t: ColumnType, column: Seq<char>)
    ensures
        coerced(e, t, column) matches Ok(v) ==> of_type(v, t),
{
}

proof fn lemma_matching_one(rows: Seq<Seq<ValueV>>, k: int, t: ColumnType, key: ValueV, n: int)
    requires
        0 <= n <= rows.len(),
        of_type(key, t),
        key != ValueV::Null,
        forall|i: int| 0 <= i < rows.len() ==> of_type(cell_or_null(#[trigger] rows[i], k), t),
        forall|i: int, j: int|
            0 <= i < j < rows.len() ==> cell(#[trigger] rows[i], k) is None || cell(rows[i], k)
                != cell(#[trigger] rows[j], k),
    ensures
        matching(rows, k, CompareOp::Eq, key, n) == (match last_with(rows, k, key, n) {
            Some(i) => seq![rows[i]],
            None => Seq::empty(),
        }),
    decreases n,
{
    if n > 0 {
        lemma_matching_one(rows, k, t, key, n - 1);
        let row = rows[n - 1];
        if cell_or_null(row, k) != ValueV::Null {
            lemma_equal_within_type(cell_or_null(row, k), key, t);
        }
        if cell(row, k) == Some(key) {
            lemma_absent(rows, k, key, n - 1);
            assert(Seq::<Seq<ValueV>>::empty().push(row) =~= seq![row]);
        }
    }
}

proof fn lemma_absent(rows: Seq<Seq<ValueV>>, k: int, key: ValueV, n: int)
    requires
        0 <= n < rows.len(),
        forall|i: int| 0 <= i < n ==> cell(#[trigger] rows[i], k) != Some(key),
    ensures
        last_with(rows, k, key, n) is None,
    decreases n,
{
    if n > 0 {
        assert(cell(rows[n - 1], k) != Some(key));
        lemma_absent(rows, k, key, n - 1);
    }
}

/// In a table whose rows have their column's types and whose keys differ, a
/// lookup by primary key finds exactly the rows that a scan would.
pub proof fn law_lookup_agrees_with_scan(t: TableV, key: ValueV)
    requires
        t.schema.key_place() is Some,
        keys_differ(t),
        key != ValueV::Null,
        ({
            let k = t.schema.key_place()->0;
            &&& of_type(key, t.schema.columns[k].column_type)
            &&& forall|i: int|
                0 <= i < t.rows.len() ==> of_type(
                    cell_or_null(#[trigger] t.rows[i], k),
                    t.schema.columns[k].column_type,
                )
        }),
    ensures
        matching(
            t.rows,
            t.schema.key_place()->0,
            CompareOp::Eq,
            key,
            t.rows.len() as int,
        ) == (match t.lookup(key) {
            Some(row) => seq![row],
            None => Seq::empty(),
        }),
{
    let k = t.schema.key_place()->0;
    lemma_matching_one(t.rows, k, t.schema.columns[k].column_type, key, t.rows.len() as int);
}

/// A comparison with `NULL` on either side never holds, not even `NULL = NULL`.
pub proof fn law_null_never_compares(v: ValueV, op: CompareOp)
    ensures
        !holds(v, op, ValueV::Null),
        !holds(ValueV::Null, op, v),
{
}

// ---------- listings ----------

/// `SHOW DATABASES` and `SHOW TABLES` give one row for each name, in ascending
/// order.
pub proof fn law_listings_ascend(s: StoreV, v: SystemVariablesV)
    requires
        s.tables.dom().finite(),
        s.databases.finite(),
    ensures
        show(s, v, ShowStatementV::Databases).rows == name_rows(in_order(s.databases)),
        lists(in_order(s.databases), s.databases) && ascending(in_order(s.databases)),
        show(s, v, ShowStatementV::Tables).rows == name_rows(in_order(s.tables.dom())),
        lists(in_order(s.tables.dom()), s.tables.dom()) && ascending(in_order(s.tables.dom())),
{
    lemma_in_order(s.databases);
    lemma_in_order(s.tables.dom());
}

} // verus!
