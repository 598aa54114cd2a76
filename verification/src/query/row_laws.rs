//! What holds of every table that statements have made, and of every result.
use vstd::prelude::*;

use crate::query::ast::{ColumnDefV, ConditionV, ExprV, SelectItemV, StatementV};
use crate::query::laws::{lemma_coerced_has_type, lemma_rows_only_reserve, of_type};
use crate::query::semantics::{
    computed, declared, executed, ordered, picked, select, stored_rows, stored_values,
};
use crate::query::variables::SystemVariablesV;
use crate::storage::api::same_but_counters;
use crate::storage::log::PlacedRow;
use crate::storage::model::{StoreV, TableV};
use crate::storage::value::{ColumnSchemaV, TableSchemaV, ValueV};

verus! {

// ---------- rows ----------

/// Whether a value may stand in a column: it has the column's type (a counted
/// column holds numbers), and is `NULL` only where that is allowed.
pub open spec fn stands_in(v: ValueV, c: ColumnSchemaV, key: Option<Seq<char>>) -> bool {
    &&& of_type(v, c.column_type) || c.auto_increment && v is Int
    &&& v == ValueV::Null ==> c.nullable && !c.auto_increment && key != Some(c.name)
}

/// Whether a row has a fitting value for every column.
pub open spec fn orderly_row(row: Seq<ValueV>, schema: TableSchemaV) -> bool {
    &&& row.len() == schema.columns.len()
    &&& forall|k: int|
        0 <= k < row.len() ==> stands_in(
            #[trigger] row[k],
            schema.columns[k],
            schema.primary_key,
        )
}

/// Whether every row of a table is like that.
pub open spec fn orderly(t: TableV) -> bool {
    forall|i: int| 0 <= i < t.rows.len() ==> orderly_row(#[trigger] t.rows[i], t.schema)
}

/// Whether every table of a store is like that.
pub open spec fn all_orderly(s: StoreV) -> bool {
    forall|name: Seq<char>| #[trigger] s.tables.contains_key(name) ==> orderly(s.tables[name])
}

proof fn lemma_values_orderly(
    s: StoreV,
    table: Seq<char>,
    schema: TableSchemaV,
    exprs: Seq<ExprV>,
    n: int,
)
    requires
        0 <= n <= schema.columns.len(),
    ensures
        stored_values(s, table, schema, exprs, n).1 matches Ok(values) ==> {
            &&& values.len() == n
            &&& forall|k: int|
                0 <= k < n ==> stands_in(#[trigger] values[k], schema.columns[k], schema.primary_key)
        },
    decreases n,
{
    if n > 0 {
        lemma_values_orderly(s, table, schema, exprs, n - 1);
        let c = schema.columns[n - 1];
        lemma_coerced_has_type(exprs[n - 1], c.column_type, c.name);
    }
}

proof fn lemma_rows_orderly(
    s: StoreV,
    table: Seq<char>,
    schema: TableSchemaV,
    names: Option<Seq<Seq<char>>>,
    rows: Seq<Seq<ExprV>>,
    n: int,
)
    ensures
        stored_rows(s, table, schema, names, rows, n).1 matches Ok(placed) ==> forall|i: int|
            0 <= i < placed.len() ==> orderly_row((#[trigger] placed[i]).row, schema),
    decreases n,
{
    if 0 < n <= rows.len() {
        lemma_rows_orderly(s, table, schema, names, rows, n - 1);
        let (s1, front) = stored_rows(s, table, schema, names, rows, n - 1);
        match ordered(schema.columns, names, rows[n - 1]) {
            Ok(exprs) => lemma_values_orderly(
                s1,
                table,
                schema,
                exprs,
                schema.columns.len() as int,
            ),
            Err(_) => {},
        }
    }
}

proof fn lemma_inserts_orderly(s: StoreV, rows: Seq<PlacedRow>, table: Seq<char>, counted: bool, n: int)
    requires
        all_orderly(s),
        s.tables.contains_key(table),
        forall|i: int|
            0 <= i < rows.len() ==> (#[trigger] rows[i]).table == table && orderly_row(
                rows[i].row,
                s.tables[table].schema,
            ),
    ensures
        all_orderly(s.insert_each(rows, counted, n).0),
        s.insert_each(rows, counted, n).0.tables.contains_key(table),
        s.insert_each(rows, counted, n).0.tables[table].schema == s.tables[table].schema,
    decreases n,
{
    if 0 < n <= rows.len() {
        lemma_inserts_orderly(s, rows, table, counted, n - 1);
        let (before, failure) = s.insert_each(rows, counted, n - 1);
        let p = rows[n - 1];
        if failure is None && before.refusal(p) is None {
            let after = before.with_row(p, counted);
            assert forall|x: Seq<char>| #[trigger] after.tables.contains_key(x) implies orderly(
                after.tables[x],
            ) by {
                assert(before.tables.contains_key(x));
                assert(orderly(before.tables[x]));
            }
        }
    }
}

/// Statements store nothing but rows as wide as their table, with a value of
/// the column's type (decimals at the column's scale) in every column, and
/// `NULL` only where the column takes it: never in a primary key.
pub proof fn law_statements_keep_rows_orderly(
    st: StatementV,
    s: StoreV,
    v: SystemVariablesV,
    buffered: bool,
)
    requires
        all_orderly(s),
    ensures
        all_orderly(executed(st, s, v, buffered).store),
{
    let after = executed(st, s, v, buffered).store;
    match st {
        StatementV::Insert { table, columns, rows } => {
            match s.table(table) {
                Ok(t) => {
                    lemma_rows_only_reserve(s, table, t.schema, columns, rows, rows.len() as int);
                    lemma_rows_orderly(s, table, t.schema, columns, rows, rows.len() as int);
                    let (s1, placed) = stored_rows(
                        s,
                        table,
                        t.schema,
                        columns,
                        rows,
                        rows.len() as int,
                    );
                    assert(same_but_counters(s1, s));
                    assert forall|x: Seq<char>| #[trigger] s1.tables.contains_key(x) implies orderly(
                        s1.tables[x],
                    ) by {
                        assert(s.tables.dom().contains(x));
                        assert(orderly(s.tables[x]));
                    }
                    assert(s1.tables.dom().contains(table));
                    match placed {
                        Ok(p) => lemma_inserts_orderly(s1, p, table, !buffered, p.len() as int),
                        Err(_) => {},
                    }
                },
                Err(_) => {},
            }
        },
        StatementV::CreateTable { table, columns } => {
            assert forall|x: Seq<char>| #[trigger] after.tables.contains_key(x) implies orderly(
                after.tables[x],
            ) by {
                if s.tables.contains_key(x) {
                    assert(orderly(s.tables[x]));
                }
            }
        },
        _ => {
            assert(after.tables == s.tables);
            assert forall|x: Seq<char>| #[trigger] after.tables.contains_key(x) implies orderly(
                after.tables[x],
            ) by {
                assert(s.tables.contains_key(x));
            }
        },
    }
}

// ---------- tables ----------

/// A table that is created has at most one counted column, and that is its
/// primary key; its primary key never takes `NULL`.
pub proof fn law_declared_tables_are_sound(defs: Seq<ColumnDefV>, n: int)
    requires
        0 <= n <= defs.len(),
    ensures
        declared(defs, n) matches Ok((columns, key)) ==> {
            &&& columns.len() == n
            &&& forall|i: int|
                0 <= i < n ==> {
                    &&& (#[trigger] columns[i]).name == defs[i].name
                    &&& columns[i].auto_increment ==> key == Some(columns[i].name)
                        && defs[i].is_primary_key
                    &&& defs[i].is_primary_key ==> key == Some(columns[i].name)
                        && !columns[i].nullable
                }
            &&& forall|i: int, j: int|
                0 <= i < j < n ==> !((#[trigger] defs[i]).is_primary_key
                    && (#[trigger] defs[j]).is_primary_key)
            &&& forall|i: int, j: int|
                0 <= i < j < n ==> !((#[trigger] columns[i]).auto_increment
                    && (#[trigger] columns[j]).auto_increment)
            &&& key is None ==> forall|i: int| 0 <= i < n ==> !(#[trigger] defs[i]).is_primary_key
        },
    decreases n,
{
    if n > 0 {
        law_declared_tables_are_sound(defs, n - 1);
        match declared(defs, n) {
            Ok((columns, key)) => {
                let front = declared(defs, n - 1)->Ok_0.0;
                assert forall|i: int, j: int|
                    0 <= i < j < n implies !((#[trigger] columns[i]).auto_increment
                    && (#[trigger] columns[j]).auto_increment) by {
                    if columns[i].auto_increment && columns[j].auto_increment {
                        assert(columns[i] == front[i]);
                        assert(defs[i].is_primary_key);
                        if j < n - 1 {
                            assert(columns[j] == front[j]);
                        }
                        assert(defs[j].is_primary_key);
                    }
                }
            },
            Err(_) => {},
        }
    }
}

// ---------- results ----------

proof fn lemma_computed_widths(items: Seq<SelectItemV>, v: SystemVariablesV, n: int)
    requires
        0 <= n <= items.len(),
    ensures
        computed(items, v, n) matches Ok((columns, values)) ==> columns.len() == n && values.len()
            == n,
    decreases n,
{
    if n > 0 {
        lemma_computed_widths(items, v, n - 1);
    }
}

proof fn lemma_picked_width(columns: Seq<ColumnSchemaV>, items: Seq<SelectItemV>, n: int)
    requires
        0 <= n <= items.len(),
    ensures
        picked(columns, items, n) matches Ok(picks) ==> picks.len() == n,
    decreases n,
{
    if n > 0 {
        lemma_picked_width(columns, items, n - 1);
    }
}

/// Every row of a query's result has one value per column, and a query over a
/// table with columns returns at least one column.
pub proof fn law_results_are_rectangular(
    s: StoreV,
    v: SystemVariablesV,
    items: Seq<SelectItemV>,
    from: Option<Seq<char>>,
    selection: Option<ConditionV>,
)
    ensures
        select(s, v, items, from, selection) matches Ok(q) ==> {
            &&& forall|i: int|
                0 <= i < q.rows.len() ==> (#[trigger] q.rows[i]).len() == q.columns.len()
            &&& q.affected == 0
            &&& items.len() > 0 && (from matches Some(t) ==> s.tables[t].schema.columns.len() > 0)
                ==> q.columns.len() > 0
        },
{
    match from {
        None => lemma_computed_widths(items, v, items.len() as int),
        Some(t) => lemma_picked_width(s.tables[t].schema.columns, items, items.len() as int),
    }
}

/// Whether an item reads a system variable, calls a function, or is a literal.
pub open spec fn informational(item: SelectItemV) -> bool {
    item matches SelectItemV::Expr(e, _) && (e is SystemVariable || e is Function || e is Integer
        || e is String || e is Null)
}

/// Reading variables never fails, known or not, so that what clients read when
/// they connect never does.
pub proof fn law_variable_reads_never_fail(items: Seq<SelectItemV>, v: SystemVariablesV, n: int)
    requires
        0 <= n <= items.len(),
        forall|i: int| 0 <= i < items.len() ==> informational(#[trigger] items[i]),
    ensures
        computed(items, v, n) is Ok,
    decreases n,
{
    if n > 0 {
        law_variable_reads_never_fail(items, v, n - 1);
        assert(informational(items[n - 1]));
    }
}

} // verus!
