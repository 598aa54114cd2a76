//! What queries return, and what definitions define.
use vstd::prelude::*;

use crate::numerals::{is_numeral_of, law_numbers_are_written_as_their_numerals};
use crate::query::ast::{ColumnDefV, CompareOp, ConditionV, ExprV, SelectItemV, StatementV};
use crate::query::eval::{coerced, holds};
use crate::query::insert_laws::{holds_its_values, law_inserted_values_are_stored};
use crate::query::laws::{law_lookup_agrees_with_scan, lemma_coerced_has_type, of_type};
use crate::query::row_laws::{
    all_orderly, law_statements_keep_rows_orderly, orderly, orderly_row, stands_in,
};
use crate::query::semantics::{
    cell_or_null, computed, executed, found, matching, picked, selected, PickV,
};
use crate::query::table_laws::{as_defined, declarable, law_tables_are_as_defined};
use crate::query::typed_laws::{law_literals_keep_their_value, stands_for};
use crate::query::variables::{function_value, variable, SystemVariablesV};
use crate::storage::model::{cell, column_from, column_place, last_with, StoreV, TableV};
use crate::storage::store_laws::{all_keys_differ, keys_differ};
use crate::storage::value::{ColumnSchemaV, ColumnType, ValueV};

verus! {

// ---------- rows ----------

/// Whether column `k` is the first of a table that is called `name`.
pub open spec fn is_column(columns: Seq<ColumnSchemaV>, name: Seq<char>, k: int) -> bool {
    &&& 0 <= k < columns.len()
    &&& columns[k].name == name
    &&& forall|j: int| 0 <= j < k ==> (#[trigger] columns[j]).name != name
}

/// Whether a table has a column of that name.
pub open spec fn has_column_named(columns: Seq<ColumnSchemaV>, name: Seq<char>) -> bool {
    exists|j: int| 0 <= j < columns.len() && (#[trigger] columns[j]).name == name
}

proof fn lemma_first_column(columns: Seq<ColumnSchemaV>, name: Seq<char>, i: int)
    requires
        0 <= i,
        forall|j: int| 0 <= j < i && j < columns.len() ==> (#[trigger] columns[j]).name != name,
    ensures
        match column_from(columns, name, i) {
            Some(k) => is_column(columns, name, k),
            None => !has_column_named(columns, name),
        },
    decreases columns.len() - i,
{
    if i < columns.len() && columns[i].name != name {
        lemma_first_column(columns, name, i + 1);
    }
}

/// A column is found by its name: the first of that name, and none only if no
/// column has the name.
pub proof fn law_columns_are_found_by_name(columns: Seq<ColumnSchemaV>, name: Seq<char>)
    ensures
        match column_place(columns, name) {
            Some(k) => is_column(columns, name, k),
            None => !has_column_named(columns, name),
        },
{
    lemma_first_column(columns, name, 0);
}

/// The rows in which column `k` compares as asked with `v`.
pub open spec fn comparing(k: int, op: CompareOp, v: ValueV) -> spec_fn(Seq<ValueV>) -> bool {
    |row: Seq<ValueV>| holds(row[k], op, v)
}

/// Whether every row has a column `k`.
spec fn reach(rows: Seq<Seq<ValueV>>, k: int) -> bool {
    forall|i: int| 0 <= i < rows.len() ==> k < (#[trigger] rows[i]).len() && 0 <= k
}

proof fn lemma_matching_filters(rows: Seq<Seq<ValueV>>, k: int, op: CompareOp, v: ValueV, n: int)
    requires
        0 <= n <= rows.len(),
        reach(rows, k),
    ensures
        matching(rows, k, op, v, n) == rows.take(n).filter(comparing(k, op, v)),
    decreases n,
{
    reveal(Seq::filter);
    if n > 0 {
        lemma_matching_filters(rows, k, op, v, n - 1);
        assert(rows.take(n).drop_last() =~= rows.take(n - 1));
        assert(rows.take(n).last() == rows[n - 1]);
    }
}

proof fn lemma_null_finds_nothing(rows: Seq<Seq<ValueV>>, k: int, op: CompareOp)
    ensures
        rows.filter(comparing(k, op, ValueV::Null)) == Seq::<Seq<ValueV>>::empty(),
    decreases rows.len(),
{
    reveal(Seq::filter);
    if rows.len() > 0 {
        lemma_null_finds_nothing(rows.drop_last(), k, op);
    }
}

proof fn lemma_no_such_row(rows: Seq<Seq<ValueV>>, k: int, key: ValueV, n: int)
    requires
        0 <= n <= rows.len(),
        forall|i: int| 0 <= i < rows.len() ==> cell(#[trigger] rows[i], k) != Some(key),
    ensures
        last_with(rows, k, key, n) is None,
    decreases n,
{
    if n > 0 {
        lemma_no_such_row(rows, k, key, n - 1);
    }
}

/// Whether `rows` are those of a table that a condition selects, in order.
pub open spec fn are_those_wanted(t: TableV, c: ConditionV, rows: Seq<Seq<ValueV>>) -> bool {
    exists|k: int, v: ValueV|
        {
            &&& #[trigger] is_column(t.schema.columns, c.column, k)
            &&& #[trigger] stands_for(c.value, t.schema.columns[k].column_type, v)
            &&& rows == t.rows.filter(comparing(k, c.op, v))
        }
}

/// Whether only columns of numbers are counted.
pub open spec fn counts_numbers(columns: Seq<ColumnSchemaV>) -> bool {
    forall|i: int|
        0 <= i < columns.len() && (#[trigger] columns[i]).auto_increment
            ==> columns[i].column_type == ColumnType::Int
}

/// `WHERE column op value` selects the rows in which that column compares so
/// with that value, in their order, whether they are looked up or searched
/// for. (A counted column has to hold numbers.)
#[verifier::rlimit(40)]
pub proof fn law_where_selects_the_matching_rows(s: StoreV, table: Seq<char>, c: ConditionV)
    requires
        all_orderly(s),
        all_keys_differ(s),
        s.tables.contains_key(table) ==> counts_numbers(s.tables[table].schema.columns),
    ensures
        found(s, table, Some(c)) matches Ok(rows) ==> s.tables.contains_key(table)
            && are_those_wanted(s.tables[table], c, rows),
        s.tables.contains_key(table) && has_column_named(s.tables[table].schema.columns, c.column)
            && (forall|k: int|
            is_column(s.tables[table].schema.columns, c.column, k) ==> coerced(
                c.value,
                (#[trigger] s.tables[table].schema.columns[k]).column_type,
                c.column,
            ) is Ok) ==> found(s, table, Some(c)) is Ok,
{
    if s.tables.contains_key(table) {
        let t = s.tables[table];
        let columns = t.schema.columns;
        law_columns_are_found_by_name(columns, c.column);
        match column_place(columns, c.column) {
            Some(k) => {
                assert(is_column(columns, c.column, k));
                let ty = columns[k].column_type;
                assert(columns[k].column_type == ty);
                match coerced(c.value, ty, c.column) {
                    Ok(v) => {
                        law_literals_keep_their_value(c.value, ty, c.column);
                        lemma_coerced_has_type(c.value, ty, c.column);
                        assert(orderly(t));
                        assert forall|i: int| 0 <= i < t.rows.len() implies 0 <= k < (
                        #[trigger] t.rows[i]).len() && stands_in(
                            t.rows[i][k],
                            columns[k],
                            t.schema.primary_key,
                        ) by {
                            assert(orderly_row(t.rows[i], t.schema));
                        }
                        assert(reach(t.rows, k));
                        lemma_matching_filters(t.rows, k, c.op, v, t.rows.len() as int);
                        assert(t.rows.take(t.rows.len() as int) =~= t.rows);
                        if c.op == CompareOp::Eq && t.schema.primary_key == Some(c.column) {
                            assert(t.schema.key_place() == Some(k));
                            if v == ValueV::Null {
                                lemma_null_finds_nothing(t.rows, k, c.op);
                                assert forall|i: int| 0 <= i < t.rows.len() implies cell(
                                    #[trigger] t.rows[i],
                                    k,
                                ) != Some(ValueV::Null) by {
                                    assert(stands_in(
                                        t.rows[i][k],
                                        columns[k],
                                        t.schema.primary_key,
                                    ));
                                }
                                lemma_no_such_row(t.rows, k, v, t.rows.len() as int);
                            } else {
                                assert(keys_differ(t));
                                assert(columns[k].auto_increment ==> ty == ColumnType::Int);
                                assert forall|i: int| 0 <= i < t.rows.len() implies of_type(
                                    cell_or_null(#[trigger] t.rows[i], k),
                                    ty,
                                ) by {
                                    assert(stands_in(
                                        t.rows[i][k],
                                        columns[k],
                                        t.schema.primary_key,
                                    ));
                                }
                                law_lookup_agrees_with_scan(t, v);
                            }
                        }
                        let rows = found(s, table, Some(c))->Ok_0;
                        assert(rows == t.rows.filter(comparing(k, c.op, v)));
                        assert(stands_for(c.value, columns[k].column_type, v));
                    },
                    Err(_) => {},
                }
            },
            None => {},
        }
    }
}

// ---------- selected columns ----------

/// Whether a result has, under the item's label, the column that a `SELECT`
/// item names.
pub open spec fn returns_item(
    t: TableV,
    item: SelectItemV,
    chosen: Seq<Seq<ValueV>>,
    j: int,
    columns: Seq<ColumnSchemaV>,
    rows: Seq<Seq<ValueV>>,
) -> bool {
    item matches SelectItemV::Expr(ExprV::Column(name), alias) && exists|k: int|
        {
            &&& #[trigger] is_column(t.schema.columns, name, k)
            &&& columns[j].column_type == t.schema.columns[k].column_type
            &&& columns[j].nullable == t.schema.columns[k].nullable
            &&& columns[j].auto_increment == t.schema.columns[k].auto_increment
            &&& columns[j].name == (if alias is Some {
                alias->0
            } else {
                name
            })
            &&& forall|i: int|
                0 <= i < rows.len() ==> (#[trigger] rows[i])[j] == chosen[i][k]
        }
}

spec fn is_pick(columns: Seq<ColumnSchemaV>, item: SelectItemV, pick: PickV) -> bool {
    item matches SelectItemV::Expr(ExprV::Column(name), alias) && is_column(
        columns,
        name,
        pick.place,
    ) && pick.label == (if alias is Some {
        alias->0
    } else {
        name
    })
}

proof fn lemma_picked(columns: Seq<ColumnSchemaV>, items: Seq<SelectItemV>, n: int)
    requires
        0 <= n <= items.len(),
    ensures
        picked(columns, items, n) matches Ok(picks) ==> picks.len() == n && forall|j: int|
            0 <= j < n ==> is_pick(columns, items[j], #[trigger] picks[j]),
        picked(columns, items, n) is Err ==> exists|j: int|
            0 <= j < n && !(#[trigger] items[j] matches SelectItemV::Expr(ExprV::Column(name), _)
                && has_column_named(columns, name)),
    decreases n,
{
    if n > 0 {
        lemma_picked(columns, items, n - 1);
        match items[n - 1] {
            SelectItemV::Expr(ExprV::Column(name), _) => {
                law_columns_are_found_by_name(columns, name);
            },
            _ => {},
        }
        if picked(columns, items, n) is Err && picked(columns, items, n - 1) is Ok {
            assert(!(items[n - 1] matches SelectItemV::Expr(ExprV::Column(name), _)
                && has_column_named(columns, name)));
        }
    }
}

/// A query over a table returns, of each row that it finds and in their order,
/// the columns that it names, in the order in which it names them and under
/// their labels; `*` returns the rows as they are.
#[verifier::rlimit(40)]
pub proof fn law_queries_return_what_they_select(
    s: StoreV,
    v: SystemVariablesV,
    projection: Seq<SelectItemV>,
    table: Seq<char>,
    selection: Option<ConditionV>,
    buffered: bool,
)
    requires
        all_orderly(s),
    ensures
        ({
            let st = StatementV::Select { projection, from: Some(table), selection };
            let e = executed(st, s, v, buffered);
            e.result matches Ok(r) ==> {
                let t = s.tables[table];
                let chosen = found(s, table, selection)->Ok_0;
                &&& s.tables.contains_key(table)
                &&& found(s, table, selection) is Ok
                &&& selection is None ==> chosen == t.rows
                &&& r.affected == 0
                &&& r.rows.len() == chosen.len()
                &&& projection == seq![SelectItemV::Wildcard] ==> r.columns == t.schema.columns
                    && r.rows == chosen
                &&& projection != seq![SelectItemV::Wildcard] ==> {
                    &&& r.columns.len() == projection.len()
                    &&& forall|i: int|
                        0 <= i < r.rows.len() ==> (#[trigger] r.rows[i]).len() == projection.len()
                    &&& forall|j: int|
                        0 <= j < projection.len() ==> returns_item(
                            t,
                            #[trigger] projection[j],
                            chosen,
                            j,
                            r.columns,
                            r.rows,
                        )
                }
            }
        }),
{
    let st = StatementV::Select { projection, from: Some(table), selection };
    let e = executed(st, s, v, buffered);
    match e.result {
        Ok(r) => {
            let t = s.tables[table];
            let columns = t.schema.columns;
            let chosen = found(s, table, selection)->Ok_0;
            let picks = selected(columns, projection)->Ok_0;
            lemma_found_rows(s, table, selection);
            assert(orderly(t));
            assert forall|i: int| 0 <= i < chosen.len() implies (#[trigger] chosen[i]).len()
                == columns.len() by {
                let m = choose|m: int| 0 <= m < t.rows.len() && #[trigger] t.rows[m] == chosen[i];
                assert(orderly_row(t.rows[m], t.schema));
            }
            if projection == seq![SelectItemV::Wildcard] {
                assert(projection[0] is Wildcard);
                assert(r.columns =~= columns);
                assert forall|i: int| 0 <= i < chosen.len() implies r.rows[i] == chosen[i] by {
                    assert(r.rows[i] =~= chosen[i]);
                }
                assert(r.rows =~= chosen);
            } else {
                if projection.len() == 1 && projection[0] is Wildcard {
                    assert(projection =~= seq![SelectItemV::Wildcard]);
                }
                lemma_picked(columns, projection, projection.len() as int);
                assert forall|j: int| 0 <= j < projection.len() implies returns_item(
                    t,
                    #[trigger] projection[j],
                    chosen,
                    j,
                    r.columns,
                    r.rows,
                ) by {
                    let k = picks[j].place;
                    assert(is_pick(columns, projection[j], picks[j]));
                    match projection[j] {
                        SelectItemV::Expr(ExprV::Column(name), alias) => {
                            assert(is_column(columns, name, k));
                            assert forall|i: int| 0 <= i < r.rows.len() implies (
                            #[trigger] r.rows[i])[j] == chosen[i][k] by {
                                assert(chosen[i].len() == columns.len());
                            }
                        },
                        _ => {},
                    }
                }
            }
        },
        Err(_) => {},
    }
}

proof fn lemma_matching_rows(rows: Seq<Seq<ValueV>>, k: int, op: CompareOp, v: ValueV, n: int)
    requires
        0 <= n <= rows.len(),
    ensures
        forall|i: int|
            0 <= i < matching(rows, k, op, v, n).len() ==> exists|m: int|
                0 <= m < rows.len() && #[trigger] rows[m] == #[trigger] matching(rows, k, op, v, n)[i],
    decreases n,
{
    if n > 0 {
        lemma_matching_rows(rows, k, op, v, n - 1);
        let a = matching(rows, k, op, v, n - 1);
        let b = matching(rows, k, op, v, n);
        assert forall|i: int| 0 <= i < b.len() implies exists|m: int|
            0 <= m < rows.len() && #[trigger] rows[m] == #[trigger] b[i] by {
            if i < a.len() {
                assert(b[i] == a[i]);
                let m = choose|m: int| 0 <= m < rows.len() && #[trigger] rows[m] == a[i];
                assert(rows[m] == b[i]);
            } else {
                assert(rows[n - 1] == b[i]);
            }
        }
    }
}

proof fn lemma_last_with(rows: Seq<Seq<ValueV>>, k: int, key: ValueV, n: int)
    requires
        0 <= n <= rows.len(),
    ensures
        last_with(rows, k, key, n) matches Some(i) ==> 0 <= i < n,
    decreases n,
{
    if n > 0 {
        lemma_last_with(rows, k, key, n - 1);
    }
}

proof fn lemma_found_rows(s: StoreV, table: Seq<char>, selection: Option<ConditionV>)
    requires
        found(s, table, selection) is Ok,
    ensures
        s.tables.contains_key(table),
        ({
            let rows = s.tables[table].rows;
            let chosen = found(s, table, selection)->Ok_0;
            forall|i: int|
                0 <= i < chosen.len() ==> exists|m: int|
                    0 <= m < rows.len() && #[trigger] rows[m] == #[trigger] chosen[i]
        }),
{
    let t = s.tables[table];
    let rows = t.rows;
    let chosen = found(s, table, selection)->Ok_0;
    match selection {
        None => {
            assert forall|i: int| 0 <= i < chosen.len() implies exists|m: int|
                0 <= m < rows.len() && #[trigger] rows[m] == #[trigger] chosen[i] by {
                assert(rows[i] == chosen[i]);
            }
        },
        Some(c) => {
            let k = column_place(t.schema.columns, c.column)->0;
            let v = coerced(c.value, t.schema.columns[k].column_type, c.column)->Ok_0;
            lemma_matching_rows(rows, k, c.op, v, rows.len() as int);
            if c.op == CompareOp::Eq && t.schema.primary_key == Some(c.column) {
                match t.schema.key_place() {
                    Some(kk) => {
                        lemma_last_with(rows, kk, v, rows.len() as int);
                        match last_with(rows, kk, v, rows.len() as int) {
                            Some(m) => {
                                assert(chosen =~= seq![rows[m]]);
                                assert forall|i: int| 0 <= i < chosen.len() implies exists|m: int|
                                    0 <= m < rows.len() && #[trigger] rows[m]
                                        == #[trigger] chosen[i] by {
                                    assert(rows[m] == chosen[i]);
                                }
                            },
                            None => {},
                        }
                    },
                    None => {},
                }
            }
        },
    }
}

/// A query over a table that is there, of columns that it has, fails for
/// nothing but its condition.
pub proof fn law_named_columns_can_be_selected(
    s: StoreV,
    v: SystemVariablesV,
    projection: Seq<SelectItemV>,
    table: Seq<char>,
    selection: Option<ConditionV>,
    buffered: bool,
)
    requires
        s.tables.contains_key(table),
        projection == seq![SelectItemV::Wildcard] || forall|j: int|
            0 <= j < projection.len() ==> (#[trigger] projection[j] matches SelectItemV::Expr(
                ExprV::Column(name),
                _,
            ) && has_column_named(s.tables[table].schema.columns, name)),
    ensures
        ({
            let st = StatementV::Select { projection, from: Some(table), selection };
            executed(st, s, v, buffered).result is Ok <==> found(s, table, selection) is Ok
        }),
        found(s, table, None) is Ok,
{
    if projection != seq![SelectItemV::Wildcard] {
        lemma_picked(s.tables[table].schema.columns, projection, projection.len() as int);
    } else {
        assert(projection[0] is Wildcard);
    }
}

/// What is inserted is selected: after an `INSERT`, `SELECT *` returns the rows
/// that were there and behind them the new ones, each with the values that its
/// value list gives.
pub proof fn law_what_is_inserted_is_selected(
    s: StoreV,
    v: SystemVariablesV,
    table: Seq<char>,
    columns: Option<Seq<Seq<char>>>,
    rows: Seq<Seq<ExprV>>,
    buffered: bool,
)
    requires
        all_orderly(s),
    ensures
        ({
            let insert = StatementV::Insert { table, columns, rows };
            let select = StatementV::Select {
                projection: seq![SelectItemV::Wildcard],
                from: Some(table),
                selection: None,
            };
            let e = executed(insert, s, v, buffered);
            e.result is Ok ==> (executed(select, e.store, v, buffered).result matches Ok(r) && {
                let old_rows = s.tables[table].rows;
                &&& r.rows.len() == old_rows.len() + rows.len()
                &&& forall|i: int| 0 <= i < old_rows.len() ==> #[trigger] r.rows[i] == old_rows[i]
                &&& forall|i: int|
                    0 <= i < rows.len() ==> holds_its_values(
                        s.tables[table].schema,
                        columns,
                        #[trigger] rows[i],
                        r.rows[old_rows.len() + i],
                    )
            })
        }),
{
    let insert = StatementV::Insert { table, columns, rows };
    let projection = seq![SelectItemV::Wildcard];
    let e = executed(insert, s, v, buffered);
    if e.result is Ok {
        law_inserted_values_are_stored(s, v, table, columns, rows, buffered);
        law_statements_keep_rows_orderly(insert, s, v, buffered);
        law_named_columns_can_be_selected(e.store, v, projection, table, None, buffered);
        law_queries_return_what_they_select(e.store, v, projection, table, None, buffered);
        let select = StatementV::Select { projection, from: Some(table), selection: None };
        let r = executed(select, e.store, v, buffered).result->Ok_0;
        assert(r.rows == e.store.tables[table].rows);
        let old_rows = s.tables[table].rows;
        assert forall|i: int| 0 <= i < rows.len() implies holds_its_values(
            s.tables[table].schema,
            columns,
            #[trigger] rows[i],
            r.rows[old_rows.len() + i],
        ) by {}
    }
}

// ---------- queries without a table ----------

/// Whether `value` is what an expression is worth outside any table.
pub open spec fn is_worth(e: ExprV, v: SystemVariablesV, value: ValueV) -> bool {
    match e {
        ExprV::Integer(n) => value == ValueV::Int(n),
        ExprV::String(s) => value == ValueV::Varchar(s),
        ExprV::Null => value == ValueV::Null,
        ExprV::SystemVariable(name) => value == variable(v, name),
        ExprV::Function(name, _) => value == function_value(v, name),
        _ => false,
    }
}

/// The label that an expression has unless it is given another.
pub open spec fn is_label(e: ExprV, label: Seq<char>) -> bool {
    match e {
        ExprV::Integer(n) => is_numeral_of(label, n as int),
        ExprV::String(s) => label == s,
        ExprV::Null => label == seq!['N', 'U', 'L', 'L'],
        ExprV::SystemVariable(name) => label == seq!['@', '@'] + name,
        ExprV::Function(name, _) => label == name + seq!['(', ')'],
        _ => false,
    }
}

proof fn lemma_computed(items: Seq<SelectItemV>, v: SystemVariablesV, n: int)
    requires
        0 <= n <= items.len(),
    ensures
        computed(items, v, n) matches Ok((columns, values)) ==> {
            &&& columns.len() == n
            &&& values.len() == n
            &&& forall|j: int|
                0 <= j < n ==> (items[j] matches SelectItemV::Expr(e, alias) && is_worth(
                    e,
                    v,
                    #[trigger] values[j],
                ) && (if alias is Some {
                    columns[j].name == alias->0
                } else {
                    is_label(e, columns[j].name)
                }) && columns[j].column_type == (if values[j] is Int {
                    ColumnType::Int
                } else {
                    ColumnType::Varchar
                }))
        },
        computed(items, v, n) is Err ==> exists|j: int|
            0 <= j < n && !(#[trigger] items[j] matches SelectItemV::Expr(e, _) && !(e is Column)
                && !(e is Placeholder)),
    decreases n,
{
    if n > 0 {
        lemma_computed(items, v, n - 1);
        match items[n - 1] {
            SelectItemV::Expr(e, alias) => {
                match e {
                    ExprV::Integer(k) => {
                        law_numbers_are_written_as_their_numerals(k as int);
                    },
                    ExprV::Null => {
                        reveal_strlit("NULL");
                        assert("NULL"@ =~= seq!['N', 'U', 'L', 'L']);
                    },
                    ExprV::SystemVariable(name) => {
                        reveal_strlit("@@");
                        assert("@@"@ =~= seq!['@', '@']);
                    },
                    ExprV::Function(name, _) => {
                        reveal_strlit("()");
                        assert("()"@ =~= seq!['(', ')']);
                    },
                    _ => {},
                }
            },
            _ => {},
        }
        if computed(items, v, n) is Err && computed(items, v, n - 1) is Ok {
            assert(!(items[n - 1] matches SelectItemV::Expr(e, _) && !(e is Column) && !(
            e is Placeholder)));
        }
    }
}

/// A query without a table returns one row: what each of its expressions is
/// worth, under its label. It fails only for a column or a `*`.
pub proof fn law_values_can_be_selected(
    s: StoreV,
    v: SystemVariablesV,
    projection: Seq<SelectItemV>,
    selection: Option<ConditionV>,
    buffered: bool,
)
    ensures
        ({
            let st = StatementV::Select { projection, from: None, selection };
            let result = executed(st, s, v, buffered).result;
            &&& result matches Ok(r) ==> {
                &&& r.rows.len() == 1
                &&& r.rows[0].len() == projection.len()
                &&& r.columns.len() == projection.len()
                &&& forall|j: int|
                    0 <= j < projection.len() ==> (#[trigger] projection[j] matches SelectItemV::Expr(
                        e,
                        alias,
                    ) && is_worth(e, v, r.rows[0][j]) && (if alias is Some {
                        r.columns[j].name == alias->0
                    } else {
                        is_label(e, r.columns[j].name)
                    }) && r.columns[j].column_type == (if r.rows[0][j] is Int {
                        ColumnType::Int
                    } else {
                        ColumnType::Varchar
                    }))
            }
            &&& (forall|j: int|
                0 <= j < projection.len() ==> (#[trigger] projection[j] matches SelectItemV::Expr(
                    e,
                    _,
                ) && !(e is Column) && !(e is Placeholder))) ==> result is Ok
        }),
{
    lemma_computed(projection, v, projection.len() as int);
    let st = StatementV::Select { projection, from: None, selection };
    match executed(st, s, v, buffered).result {
        Ok(r) => {
            assert forall|j: int| 0 <= j < projection.len() implies (
            #[trigger] projection[j] matches SelectItemV::Expr(e, alias) && is_worth(
                e,
                v,
                r.rows[0][j],
            ) && (if alias is Some {
                r.columns[j].name == alias->0
            } else {
                is_label(e, r.columns[j].name)
            }) && r.columns[j].column_type == (if r.rows[0][j] is Int {
                ColumnType::Int
            } else {
                ColumnType::Varchar
            })) by {
                let values = computed(projection, v, projection.len() as int)->Ok_0.1;
                assert(r.rows[0][j] == values[j]);
            }
        },
        Err(_) => {},
    }
}

// ---------- definitions ----------

/// `CREATE TABLE` adds a table with the columns of its definitions and no rows,
/// and touches nothing else. It fails exactly if there is a table of the name,
/// or if the definitions do not fit together, and then changes nothing.
pub proof fn law_tables_are_created_as_defined(
    s: StoreV,
    v: SystemVariablesV,
    table: Seq<char>,
    defs: Seq<ColumnDefV>,
    buffered: bool,
)
    ensures
        ({
            let e = executed(StatementV::CreateTable { table, columns: defs }, s, v, buffered);
            &&& e.result is Ok <==> !s.tables.contains_key(table) && declarable(defs)
            &&& e.result is Err ==> e.store == s
            &&& e.result matches Ok(r) ==> {
                let t = e.store.tables[table];
                &&& r.affected == 0 && r.columns.len() == 0 && r.rows.len() == 0
                &&& e.store.databases == s.databases
                &&& e.store.tables.contains_key(table)
                &&& forall|x: Seq<char>|
                    x != table ==> (#[trigger] e.store.tables.contains_key(x)
                        <==> s.tables.contains_key(x))
                &&& forall|x: Seq<char>|
                    x != table && s.tables.contains_key(x) ==> #[trigger] e.store.tables[x]
                        == s.tables[x]
                &&& t.rows.len() == 0
                &&& t.schema.columns.len() == defs.len()
                &&& forall|i: int|
                    0 <= i < defs.len() ==> as_defined(#[trigger] defs[i], t.schema.columns[i])
                &&& forall|i: int|
                    0 <= i < defs.len() && (#[trigger] defs[i]).is_primary_key
                        ==> t.schema.primary_key == Some(defs[i].name)
                &&& t.schema.primary_key is Some ==> exists|i: int|
                    0 <= i < defs.len() && (#[trigger] defs[i]).is_primary_key
            }
        }),
{
    law_tables_are_as_defined(defs);
    match crate::query::semantics::declared(defs, defs.len() as int) {
        Ok((columns, key)) => {
            if key is Some {
                law_columns_are_found_by_name(columns, key->0);
                let i = choose|i: int| 0 <= i < defs.len() && (#[trigger] defs[i]).is_primary_key;
                assert(as_defined(defs[i], columns[i]));
                assert(columns[i].name == key->0);
            }
        },
        Err(_) => {},
    }
}

/// `CREATE DATABASE` adds a name and `DROP DATABASE` takes it away, and neither
/// touches another name or a table. Creating fails exactly if the name is there
/// already and that was not allowed for, and dropping if it is not there and
/// that was not allowed for.
pub proof fn law_databases_come_and_go(
    s: StoreV,
    v: SystemVariablesV,
    name: Seq<char>,
    lenient: bool,
    buffered: bool,
    other: Seq<char>,
)
    ensures
        ({
            let create = StatementV::CreateDatabase { name, if_not_exists: lenient };
            let e = executed(create, s, v, buffered);
            &&& e.result is Err <==> s.databases.contains(name) && !lenient
            &&& e.result is Err ==> e.store == s
            &&& e.result is Ok ==> e.store.databases.contains(name)
            &&& other != name ==> (e.store.databases.contains(other) <==> s.databases.contains(
                other,
            ))
            &&& e.store.tables == s.tables
        }),
        ({
            let drop = StatementV::DropDatabase { name, if_exists: lenient };
            let e = executed(drop, s, v, buffered);
            &&& e.result is Err <==> !s.databases.contains(name) && !lenient
            &&& e.result is Err ==> e.store == s
            &&& e.result is Ok ==> !e.store.databases.contains(name)
            &&& other != name ==> (e.store.databases.contains(other) <==> s.databases.contains(
                other,
            ))
            &&& e.store.tables == s.tables
        }),
{
}

} // verus!
