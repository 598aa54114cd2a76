//! Executes parsed statements against the storage layer.
use vstd::prelude::*;

use crate::error::{Error, ErrorV};
use crate::query::ast::{
    expr_rows, ColumnDef, ColumnDefV, CompareOp, Condition, Expr, ExprV, SelectItem, SelectItemV,
    ShowStatement, Statement,
};
use crate::query::eval::{coerce, compare_values, like_matches};
use crate::query::order::sort_names;
use crate::query::semantics::{
    affected, cell_or_null, computed, create, declared, defines, executed, found, given,
    holds_back, insert, is_write, last_named, listed, matching, more_of, name_rows, or_label,
    ordered, picked, picked_columns, picked_row, picked_rows, reordered, row_matches, select,
    select_from, selected, show, standalone, stored_row, stored_rows, stored_values, stranger,
    text_column, unknown_column, variable_rows, EffectV, PickV, QueryResultV,
};
use crate::query::variables::{known, named_values, SystemVariables, SystemVariablesV};
use crate::seqs::{duplicate_all, opt_view, views, Duplicate};
use crate::storage::api::{io_failure, kept, lemma_same_but_counters, same_but_counters, Storage};
use crate::storage::log::{placed_rows, PlacedRow};
use crate::storage::model::{
    column_place, lemma_column_from, lemma_fitting_in_range, rows_view, StoreV,
};
use crate::storage::table::find_column;
use crate::storage::value::{
    same_value, ColumnSchema, ColumnSchemaV, ColumnType, TableSchema, TableSchemaV, Value, ValueV,
};
use crate::text::{cat2, cat3, cat5, i64_text, same_text, u64_text};

verus! {

broadcast use crate::seqs::group_views;

/// The outcome of executing a statement. For statements that return no rows,
/// `columns` is empty and `rows_affected` carries the count. Values stay typed
/// so that the connection can encode them in either protocol.
#[derive(Debug)]
pub struct QueryResult {
    pub columns: Vec<ColumnSchema>,
    pub rows: Vec<Vec<Value>>,
    pub rows_affected: u64,
}

impl View for QueryResult {
    type V = QueryResultV;

    open spec fn view(&self) -> QueryResultV {
        QueryResultV {
            columns: views(self.columns@),
            rows: rows_view(self.rows@),
            affected: self.rows_affected as int,
        }
    }
}

impl Default for QueryResult {
    fn default() -> (r: Self)
        ensures
            r@ == affected(0),
    {
        nothing(0)
    }
}

/// A result with no columns.
fn nothing(rows_affected: u64) -> (r: QueryResult)
    ensures
        r@ == affected(rows_affected as int),
{
    let r = QueryResult { columns: Vec::new(), rows: Vec::new(), rows_affected };
    proof {
        assert(r@.rows =~= Seq::<Seq<ValueV>>::empty());
    }
    r
}

impl QueryResult {
    /// The projected column names, in order.
    pub fn column_names(&self) -> (r: Vec<String>)
        ensures
            views(r@) == Seq::new(self.columns@.len(), |i: int| self.columns@[i].name@),
    {
        let mut out: Vec<String> = Vec::new();
        let mut i: usize = 0;
        while i < self.columns.len()
            invariant
                i <= self.columns@.len(),
                out@.len() == i,
                forall|k: int| 0 <= k < i ==> (#[trigger] out@[k])@ == self.columns@[k].name@,
            decreases self.columns@.len() - i,
        {
            out.push(self.columns[i].name.clone());
            i = i + 1;
        }
        proof {
            assert(views(out@) =~= Seq::new(
                self.columns@.len(),
                |i: int| self.columns@[i].name@,
            ));
        }
        out
    }
}

// ---------- CREATE TABLE ----------

/// The schema that column definitions declare.
fn declare(defs: &Vec<ColumnDef>) -> (r: Result<(Vec<ColumnSchema>, Option<String>), Error>)
    ensures
        match declared(views(defs@), defs@.len() as int) {
            Ok((columns, key)) => r matches Ok((c, k)) && views(c@) == columns && opt_view(k)
                == key,
            Err(e) => r matches Err(x) && x@ == e,
        },
        !io_failure(r),
{
    let ghost all = views(defs@);
    let mut columns: Vec<ColumnSchema> = Vec::new();
    let mut key: Option<String> = None;
    let mut i: usize = 0;
    let ghost total = defs@.len() as int;
    while i < defs.len()
        invariant
            i <= defs@.len(),
            total == defs@.len(),
            all == views(defs@),
            declared(all, i as int) == Ok::<(Seq<ColumnSchemaV>, Option<Seq<char>>), ErrorV>(
                (views(columns@), opt_view(key)),
            ),
        decreases defs@.len() - i,
    {
        let def = &defs[i];
        proof {
            assert(all[i as int] == def@);
            lemma_declared_stops(all, i + 1, total);
        }
        let column_type: ColumnType = match ColumnType::from_name(def.type_text.as_str()) {
            Some(t) => t,
            None => {
                return Err(
                    Error::Execution(
                        cat5(
                            "Unknown column type '",
                            def.type_text.as_str(),
                            "' for column '",
                            def.name.as_str(),
                            "'",
                        ),
                    ),
                );
            },
        };
        if def.is_primary_key && key.is_some() {
            return Err(
                Error::Execution("multiple primary key columns are not supported".to_string()),
            );
        }
        if def.auto_increment && !def.is_primary_key {
            return Err(
                Error::Execution(
                    cat3("AUTO_INCREMENT column '", def.name.as_str(), "' must be the primary key"),
                ),
            );
        }
        columns.push(
            ColumnSchema {
                name: def.name.clone(),
                column_type,
                nullable: def.nullable && !def.is_primary_key,
                auto_increment: def.auto_increment,
            },
        );
        if def.is_primary_key {
            key = Some(def.name.clone());
        }
        i = i + 1;
    }
    Ok((columns, key))
}

/// A bad definition is not made good by what follows it.
proof fn lemma_declared_stops(defs: Seq<ColumnDefV>, n: int, m: int)
    requires
        0 <= n <= m <= defs.len(),
    ensures
        declared(defs, n) is Err ==> declared(defs, m) == declared(defs, n),
    decreases m - n,
{
    if n < m {
        lemma_declared_stops(defs, n + 1, m);
    }
}

fn create_table<S: Storage>(storage: &mut S, table: &str, defs: &Vec<ColumnDef>) -> (r: Result<
    QueryResult,
    Error,
>)
    requires
        old(storage).wf(),
    ensures
        final(storage).wf(),
        final(storage).held() == old(storage).held(),
        final(storage).waiting() == old(storage).waiting(),
        S::volatile() ==> !io_failure(r),
        meets(
            r,
            final(storage).model(),
            create(old(storage).model(), table@, views(defs@)),
        ),
        meets(
            r,
            final(storage).committed(),
            create(old(storage).committed(), table@, views(defs@)),
        ),
{
    let (columns, key) = declare(defs)?;
    storage.create_table(table, columns, key)?;
    Ok(nothing(0))
}

/// Whether the outcome of a statement, and the store after it, are as they
/// should be. A failure outside the store leaves the change undone.
pub open spec fn meets(r: Result<QueryResult, Error>, after: StoreV, effect: EffectV) -> bool {
    if io_failure(r) {
        after == effect.prepared
    } else {
        &&& after == effect.store
        &&& match effect.result {
            Ok(q) => r matches Ok(x) && x@ == q,
            Err(e) => r matches Err(x) && x@ == e,
        }
    }
}

// ---------- INSERT ----------

fn column_index(columns: &Vec<ColumnSchema>, name: &str) -> (r: Result<usize, Error>)
    ensures
        match column_place(views(columns@), name@) {
            Some(k) => r matches Ok(i) && i == k && k < columns@.len(),
            None => r matches Err(x) && x@ == unknown_column(name@),
        },
        !io_failure(r),
{
    match find_column(columns, name) {
        Some(i) => Ok(i),
        None => Err(Error::Execution(cat3("Unknown column '", name, "'"))),
    }
}

/// The last place of `name` in `names`.
fn last_place(names: &Vec<String>, name: &str) -> (r: Option<usize>)
    ensures
        match last_named(views(names@), name@, names@.len() as int) {
            Some(k) => r matches Some(i) && i == k && k < names@.len(),
            None => r is None,
        },
{
    let ghost all = views(names@);
    let mut i: usize = names.len();
    while i > 0
        invariant
            i <= names@.len(),
            all == views(names@),
            last_named(all, name@, names@.len() as int) == last_named(all, name@, i as int),
        decreases i,
    {
        proof {
            assert(all[i - 1] == names@[i - 1]@);
        }
        if same_text(names[i - 1].as_str(), name) {
            return Some(i - 1);
        }
        i = i - 1;
    }
    None
}

/// The values of a row in the table's column order, from an explicit
/// `(col, ...) VALUES (...)` list.
fn reorder_exprs(columns: &Vec<ColumnSchema>, names: &Vec<String>, values: &Vec<Expr>) -> (r: Result<
    Vec<Expr>,
    Error,
>)
    ensures
        match ordered(views(columns@), Some(views(names@)), views(values@)) {
            Ok(s) => r matches Ok(v) && views(v@) == s,
            Err(e) => r matches Err(x) && x@ == e,
        },
        !io_failure(r),
{
    let ghost cols = views(columns@);
    let ghost all = views(names@);
    let ghost vals = views(values@);
    if names.len() != values.len() {
        return Err(
            Error::Execution(
                cat5(
                    "Column count doesn't match value count: ",
                    u64_text(names.len() as u64).as_str(),
                    " column(s) named, ",
                    u64_text(values.len() as u64).as_str(),
                    " value(s) given",
                ),
            ),
        );
    }
    let mut i: usize = 0;
    while i < names.len()
        invariant
            i <= names@.len(),
            names@.len() == values@.len(),
            cols == views(columns@),
            all == views(names@),
            vals == views(values@),
            stranger(cols, all, 0) == stranger(cols, all, i as int),
        decreases names@.len() - i,
    {
        proof {
            assert(all[i as int] == names@[i as int]@);
        }
        if find_column(columns, names[i].as_str()).is_none() {
            return Err(
                Error::Execution(
                    cat3("Unknown column '", names[i].as_str(), "' in field list"),
                ),
            );
        }
        i = i + 1;
    }
    let mut out: Vec<Expr> = Vec::new();
    let mut c: usize = 0;
    while c < columns.len()
        invariant
            c <= columns@.len(),
            names@.len() == values@.len(),
            cols == views(columns@),
            all == views(names@),
            vals == views(values@),
            stranger(cols, all, 0) is None,
            reordered(cols, all, vals, c as int) == Ok::<Seq<ExprV>, ErrorV>(views(out@)),
        decreases columns@.len() - c,
    {
        let column = &columns[c];
        proof {
            assert(cols[c as int] == column@);
            lemma_column_from(cols, column@.name, 0);
            lemma_reordered_stops(cols, all, vals, c + 1, columns@.len() as int);
        }
        let first: Option<usize> = find_column(columns, column.name.as_str());
        let place: Option<usize> = last_place(names, column.name.as_str());
        let value: Option<Expr> = match (place, first) {
            (Some(k), Some(f)) => if f == c {
                proof {
                    assert(vals[k as int] == values@[k as int]@);
                }
                Some(values[k].duplicate())
            } else {
                None
            },
            _ => None,
        };
        proof {
            assert(opt_view(value) == given(cols, all, vals, c as int));
            assert(Expr::Null@ == ExprV::Null);
        }
        match value {
            Some(e) => {
                out.push(e);
            },
            None => {
                if column.auto_increment {
                    out.push(Expr::Null);
                } else {
                    return Err(
                        Error::Execution(
                            cat3(
                                "Column '",
                                column.name.as_str(),
                                "' has no default value and was not given a value",
                            ),
                        ),
                    );
                }
            },
        }
        c = c + 1;
    }
    Ok(out)
}

proof fn lemma_reordered_stops(
    columns: Seq<ColumnSchemaV>,
    names: Seq<Seq<char>>,
    values: Seq<ExprV>,
    n: int,
    m: int,
)
    requires
        0 <= n <= m <= columns.len(),
    ensures
        reordered(columns, names, values, n) is Err ==> reordered(columns, names, values, m)
            == reordered(columns, names, values, n),
    decreases m - n,
{
    if n < m {
        lemma_reordered_stops(columns, names, values, n + 1, m);
    }
}

proof fn lemma_stored_values_stops(
    s: StoreV,
    table: Seq<char>,
    schema: TableSchemaV,
    exprs: Seq<ExprV>,
    n: int,
    m: int,
)
    requires
        0 <= n <= m <= schema.columns.len(),
    ensures
        stored_values(s, table, schema, exprs, n).1 is Err ==> stored_values(
            s,
            table,
            schema,
            exprs,
            m,
        ) == stored_values(s, table, schema, exprs, n),
    decreases m - n,
{
    if n < m {
        lemma_stored_values_stops(s, table, schema, exprs, n + 1, m);
    }
}

proof fn lemma_stored_rows_stops(
    s: StoreV,
    table: Seq<char>,
    schema: TableSchemaV,
    names: Option<Seq<Seq<char>>>,
    rows: Seq<Seq<ExprV>>,
    n: int,
    m: int,
)
    requires
        0 <= n <= m <= rows.len(),
    ensures
        stored_rows(s, table, schema, names, rows, n).1 is Err ==> stored_rows(
            s,
            table,
            schema,
            names,
            rows,
            m,
        ) == stored_rows(s, table, schema, names, rows, n),
    decreases m - n,
{
    if n < m {
        lemma_stored_rows_stops(s, table, schema, names, rows, n + 1, m);
    }
}

fn is_key(schema: &TableSchema, name: &str) -> (r: bool)
    ensures
        r == (schema@.primary_key == Some(name@)),
{
    match &schema.primary_key {
        Some(k) => same_text(k.as_str(), name),
        None => false,
    }
}

/// The stored values of a row, taking `AUTO_INCREMENT` values as needed.
fn store_values<S: Storage>(
    storage: &mut S,
    table: &str,
    schema: &TableSchema,
    exprs: &Vec<Expr>,
) -> (r: Result<Vec<Value>, Error>)
    requires
        old(storage).wf(),
        exprs@.len() == schema.columns@.len(),
    ensures
        final(storage).wf(),
        final(storage).held() == old(storage).held(),
        final(storage).waiting() == old(storage).waiting(),
        ({
            let (s, values) = stored_values(
                old(storage).model(),
                table@,
                schema@,
                views(exprs@),
                schema.columns@.len() as int,
            );
            &&& final(storage).model() == s
            &&& match values {
                Ok(v) => r matches Ok(x) && views(x@) == v,
                Err(e) => r matches Err(x) && x@ == e && !io_failure(r),
            }
        }),
        same_but_counters(final(storage).committed(), old(storage).committed()),
{
    proof {
        lemma_same_but_counters(storage.committed(), storage.committed(), storage.committed());
    }
    let ghost s0 = storage.model();
    let ghost es = views(exprs@);
    let mut values: Vec<Value> = Vec::new();
    let mut i: usize = 0;
    while i < schema.columns.len()
        invariant
            i <= schema.columns@.len(),
            exprs@.len() == schema.columns@.len(),
            es == views(exprs@),
            s0 == old(storage).model(),
            storage.wf(),
            storage.held() == old(storage).held(),
            storage.waiting() == old(storage).waiting(),
            same_but_counters(storage.committed(), old(storage).committed()),
            stored_values(s0, table@, schema@, es, i as int) == (
                storage.model(),
                Ok::<Seq<ValueV>, ErrorV>(views(values@)),
            ),
        decreases schema.columns@.len() - i,
    {
        let column = &schema.columns[i];
        proof {
            assert(schema@.columns[i as int] == column@);
            assert(es[i as int] == exprs@[i as int]@);
            lemma_stored_values_stops(
                s0,
                table@,
                schema@,
                es,
                i + 1,
                schema.columns@.len() as int,
            );
        }
        let value = coerce(&exprs[i], column.column_type, column.name.as_str())?;
        if !same_value(&value, &Value::Null) {
            values.push(value);
        } else if column.auto_increment {
            let ghost before = storage.committed();
            let taken = storage.next_auto_increment(table);
            proof {
                lemma_same_but_counters(storage.committed(), before, old(storage).committed());
            }
            let n: i64 = taken?;
            values.push(Value::Int(n));
        } else if is_key(schema, column.name.as_str()) {
            return Err(
                Error::Execution(
                    cat3("Column '", column.name.as_str(), "' cannot be NULL (primary key)"),
                ),
            );
        } else if !column.nullable {
            return Err(
                Error::Execution(cat3("Column '", column.name.as_str(), "' cannot be NULL")),
            );
        } else {
            values.push(value);
        }
        i = i + 1;
    }
    Ok(values)
}

/// One row of an `INSERT`, ready to be stored.
fn store_row<S: Storage>(
    storage: &mut S,
    table: &str,
    schema: &TableSchema,
    names: &Option<Vec<String>>,
    row: &Vec<Expr>,
) -> (r: Result<Vec<Value>, Error>)
    requires
        old(storage).wf(),
    ensures
        final(storage).wf(),
        final(storage).held() == old(storage).held(),
        final(storage).waiting() == old(storage).waiting(),
        ({
            let (s, values) = stored_row(
                old(storage).model(),
                table@,
                schema@,
                names_view(*names),
                views(row@),
            );
            &&& final(storage).model() == s
            &&& match values {
                Ok(v) => r matches Ok(x) && views(x@) == v,
                Err(e) => r matches Err(x) && x@ == e && !io_failure(r),
            }
        }),
        same_but_counters(final(storage).committed(), old(storage).committed()),
{
    proof {
        lemma_same_but_counters(storage.committed(), storage.committed(), storage.committed());
    }
    let exprs: Vec<Expr> = match names {
        Some(n) => reorder_exprs(&schema.columns, n, row)?,
        None => duplicate_all(row),
    };
    if exprs.len() != schema.columns.len() {
        return Err(
            Error::Execution(
                cat2(
                    cat5(
                        "Column count doesn't match value count: table '",
                        table,
                        "' has ",
                        u64_text(schema.columns.len() as u64).as_str(),
                        " column(s), got ",
                    ).as_str(),
                    u64_text(exprs.len() as u64).as_str(),
                ),
            ),
        );
    }
    store_values(storage, table, schema, &exprs)
}

/// An explicit column list, seen mathematically.
pub open spec fn names_view(names: Option<Vec<String>>) -> Option<Seq<Seq<char>>> {
    match names {
        Some(n) => Some(views(n@)),
        None => None,
    }
}

proof fn lemma_more_of(waited: Seq<PlacedRow>, rows: Seq<PlacedRow>, n: int, table: Seq<char>)
    requires
        0 <= n <= rows.len(),
        forall|k: int| 0 <= k < rows.len() ==> (#[trigger] rows[k]).table == table,
    ensures
        more_of(waited, waited + rows.take(n), table),
{
    let after = waited + rows.take(n);
    assert(after.take(waited.len() as int) =~= waited);
    assert forall|i: int| waited.len() <= i < after.len() implies (#[trigger] after[i]).table
        == table by {
        assert(after[i] == rows[i - waited.len()]);
    }
}

fn insert_into<S: Storage>(
    storage: &mut S,
    table: &str,
    names: &Option<Vec<String>>,
    rows: &Vec<Vec<Expr>>,
) -> (r: Result<QueryResult, Error>)
    requires
        old(storage).wf(),
    ensures
        final(storage).wf(),
        final(storage).held() == old(storage).held(),
        more_of(old(storage).waiting(), final(storage).waiting(), table@),
        S::volatile() ==> !io_failure(r),
        meets(
            r,
            final(storage).model(),
            insert(
                old(storage).model(),
                table@,
                names_view(*names),
                expr_rows(rows@),
                S::buffered(),
            ),
        ),
        S::buffered() ==> same_but_counters(final(storage).committed(), old(storage).committed()),
{
    proof {
        lemma_same_but_counters(storage.committed(), storage.committed(), storage.committed());
        let waited = storage.waiting();
        assert(waited.take(waited.len() as int) =~= waited);
    }
    let ghost s0 = storage.model();
    let ghost all = expr_rows(rows@);
    let ghost ns = names_view(*names);
    let schema = storage.table_schema(table)?;
    let ghost sv = schema@;
    let mut batch: Vec<(String, Vec<Value>)> = Vec::new();
    let mut i: usize = 0;
    proof {
        assert(placed_rows(batch@) =~= Seq::<PlacedRow>::empty());
    }
    while i < rows.len()
        invariant
            i <= rows@.len(),
            all == expr_rows(rows@),
            ns == names_view(*names),
            sv == schema@,
            s0 == old(storage).model(),
            s0.table(table@) is Ok,
            s0.table(table@)->Ok_0.schema == sv,
            storage.wf(),
            storage.held() == old(storage).held(),
            storage.waiting() == old(storage).waiting(),
            more_of(storage.waiting(), storage.waiting(), table@),
            same_but_counters(storage.committed(), old(storage).committed()),
            stored_rows(s0, table@, sv, ns, all, i as int) == (
                storage.model(),
                Ok::<Seq<PlacedRow>, ErrorV>(placed_rows(batch@)),
            ),
            batch@.len() == i,
            forall|k: int| 0 <= k < i ==> (#[trigger] placed_rows(batch@)[k]).table == table@,
        decreases rows@.len() - i,
    {
        proof {
            assert(all[i as int] == views(rows@[i as int]@));
            lemma_stored_rows_stops(s0, table@, sv, ns, all, i + 1, rows@.len() as int);
        }
        let ghost before = storage.committed();
        let stored = store_row(storage, table, &schema, names, &rows[i]);
        proof {
            lemma_same_but_counters(storage.committed(), before, old(storage).committed());
        }
        let row = stored?;
        let ghost before = placed_rows(batch@);
        let ghost p = PlacedRow { table: table@, row: views(row@) };
        batch.push((table.to_string(), row));
        proof {
            assert(placed_rows(batch@) =~= before.push(p));
        }
        i = i + 1;
    }
    let n: u64 = batch.len() as u64;
    let ghost ready = placed_rows(batch@);
    let ghost waited = storage.waiting();
    proof {
        lemma_fitting_in_range(storage.model(), ready, ready.len() as int);
        lemma_more_of(waited, ready, storage.model().fitting(ready), table@);
        lemma_more_of(waited, ready, ready.len() as int, table@);
    }
    if batch.len() == 1 {
        let (_, row) = batch.remove(0);
        proof {
            let p = PlacedRow { table: table@, row: views(row@) };
            assert(ready =~= seq![p]);
            assert(waited + ready.take(1) =~= waited.push(p));
        }
        storage.insert_row(table, row)?;
    } else {
        storage.insert_rows(batch)?;
    }
    Ok(nothing(n))
}

// ---------- SELECT ----------

/// The value and the default label of an expression outside any table.
fn evaluate(expr: &Expr, vars: &SystemVariables) -> (r: Result<(String, Value), Error>)
    ensures
        match standalone(expr@, vars@) {
            Ok((label, value)) => r matches Ok((l, v)) && l@ == label && v@ == value,
            Err(e) => r matches Err(x) && x@ == e,
        },
        !io_failure(r),
{
    match expr {
        Expr::Integer(n) => Ok((i64_text(*n), Value::Int(*n))),
        Expr::String(s) => Ok((s.clone(), Value::Varchar(s.clone()))),
        Expr::Null => Ok(("NULL".to_string(), Value::Null)),
        Expr::SystemVariable(name) => Ok(
            (cat2("@@", name.as_str()), vars.system_variable(name.as_str())),
        ),
        Expr::Function(name, _) => Ok(
            (cat2(name.as_str(), "()"), vars.evaluate_function(name.as_str())),
        ),
        Expr::Column(name) => Err(
            Error::Execution(cat3("Unknown column '", name.as_str(), "' in 'field list'")),
        ),
        Expr::Placeholder(_) => Err(
            Error::Execution("unbound '?' parameter reached the executor".to_string()),
        ),
    }
}

fn label_or(alias: &Option<String>, label: String) -> (r: String)
    ensures
        r@ == or_label(opt_view(*alias), label@),
{
    match alias {
        Some(a) => a.clone(),
        None => label,
    }
}

proof fn lemma_computed_stops(items: Seq<SelectItemV>, v: SystemVariablesV, n: int, m: int)
    requires
        0 <= n <= m <= items.len(),
    ensures
        computed(items, v, n) is Err ==> computed(items, v, m) == computed(items, v, n),
    decreases m - n,
{
    if n < m {
        lemma_computed_stops(items, v, n + 1, m);
    }
}

/// `SELECT <expr-list>` with no `FROM`.
fn select_without_table(vars: &SystemVariables, projection: &Vec<SelectItem>) -> (r: Result<
    QueryResult,
    Error,
>)
    ensures
        forall|s: StoreV|
            match #[trigger] select(s, vars@, views(projection@), None, None) {
                Ok(q) => r matches Ok(x) && x@ == q,
                Err(e) => r matches Err(x) && x@ == e,
            },
        !io_failure(r),
{
    let ghost items = views(projection@);
    let mut columns: Vec<ColumnSchema> = Vec::new();
    let mut values: Vec<Value> = Vec::new();
    let mut i: usize = 0;
    while i < projection.len()
        invariant
            i <= projection@.len(),
            items == views(projection@),
            computed(items, vars@, i as int) == Ok::<(Seq<ColumnSchemaV>, Seq<ValueV>), ErrorV>(
                (views(columns@), views(values@)),
            ),
        decreases projection@.len() - i,
    {
        proof {
            assert(items[i as int] == projection@[i as int]@);
            lemma_computed_stops(items, vars@, i + 1, projection@.len() as int);
        }
        match &projection[i] {
            SelectItem::Wildcard => {
                return Err(Error::Execution("SELECT * requires a FROM clause".to_string()));
            },
            SelectItem::Expr(expr, alias) => {
                let (label, value) = evaluate(expr, vars)?;
                let column_type: ColumnType = match &value {
                    Value::Int(_) => ColumnType::Int,
                    _ => ColumnType::Varchar,
                };
                columns.push(
                    ColumnSchema {
                        name: label_or(alias, label),
                        column_type,
                        nullable: true,
                        auto_increment: false,
                    },
                );
                values.push(value);
            },
        }
        i = i + 1;
    }
    let mut rows: Vec<Vec<Value>> = Vec::new();
    let ghost row = views(values@);
    rows.push(values);
    proof {
        assert(rows_view(rows@) =~= seq![row]);
    }
    Ok(QueryResult { columns, rows, rows_affected: 0 })
}

/// A selected column: its place in the table and its label.
struct Pick {
    place: usize,
    label: String,
}

impl View for Pick {
    type V = PickV;

    closed spec fn view(&self) -> PickV {
        PickV { place: self.place as int, label: self.label@ }
    }
}

proof fn lemma_picked_stops(columns: Seq<ColumnSchemaV>, items: Seq<SelectItemV>, n: int, m: int)
    requires
        0 <= n <= m <= items.len(),
    ensures
        picked(columns, items, n) is Err ==> picked(columns, items, m) == picked(columns, items, n),
    decreases m - n,
{
    if n < m {
        lemma_picked_stops(columns, items, n + 1, m);
    }
}

fn resolve_projection(columns: &Vec<ColumnSchema>, projection: &Vec<SelectItem>) -> (r: Result<
    Vec<Pick>,
    Error,
>)
    ensures
        match selected(views(columns@), views(projection@)) {
            Ok(p) => r matches Ok(v) && views(v@) == p && forall|i: int|
                0 <= i < v@.len() ==> (#[trigger] v@[i]).place < columns@.len(),
            Err(e) => r matches Err(x) && x@ == e,
        },
        !io_failure(r),
{
    let ghost cols = views(columns@);
    let ghost items = views(projection@);
    let mut picks: Vec<Pick> = Vec::new();
    let mut i: usize = 0;
    if projection.len() == 1 && matches!(&projection[0], SelectItem::Wildcard) {
        proof {
            assert(items[0] == projection@[0]@);
        }
        while i < columns.len()
            invariant
                i <= columns@.len(),
                picks@.len() == i,
                forall|k: int|
                    0 <= k < i ==> (#[trigger] picks@[k]).place == k && picks@[k].label@
                        == columns@[k].name@,
            decreases columns@.len() - i,
        {
            picks.push(Pick { place: i, label: columns[i].name.clone() });
            i = i + 1;
        }
        proof {
            assert(views(picks@) =~= Seq::new(
                cols.len(),
                |i: int| PickV { place: i, label: cols[i].name },
            ));
        }
        return Ok(picks);
    }
    proof {
        if items.len() == 1 {
            assert(items[0] == projection@[0]@);
        }
    }
    while i < projection.len()
        invariant
            i <= projection@.len(),
            cols == views(columns@),
            items == views(projection@),
            !(items.len() == 1 && items[0] is Wildcard),
            picked(cols, items, i as int) == Ok::<Seq<PickV>, ErrorV>(views(picks@)),
            forall|k: int| 0 <= k < picks@.len() ==> (#[trigger] picks@[k]).place < columns@.len(),
        decreases projection@.len() - i,
    {
        proof {
            assert(items[i as int] == projection@[i as int]@);
            lemma_picked_stops(cols, items, i + 1, projection@.len() as int);
        }
        match &projection[i] {
            SelectItem::Wildcard => {
                return Err(
                    Error::Execution(
                        "'*' cannot be combined with other selected columns".to_string(),
                    ),
                );
            },
            SelectItem::Expr(Expr::Column(name), alias) => {
                let place: usize = column_index(columns, name.as_str())?;
                picks.push(Pick { place, label: label_or(alias, name.clone()) });
            },
            SelectItem::Expr(_, _) => {
                return Err(
                    Error::Unsupported(
                        "literal expressions in a SELECT list alongside a FROM clause",
                    ),
                );
            },
        }
        i = i + 1;
    }
    Ok(picks)
}

/// What a filter keeps, where it keeps the rows that match.
proof fn lemma_kept_matching(
    rows: Seq<Seq<ValueV>>,
    keep: Seq<bool>,
    k: int,
    op: CompareOp,
    v: ValueV,
    n: int,
)
    requires
        0 <= n <= rows.len(),
        keep.len() == rows.len(),
        forall|i: int| 0 <= i < rows.len() ==> #[trigger] keep[i] == row_matches(rows[i], k, op, v),
    ensures
        kept(rows, keep, n) == matching(rows, k, op, v, n),
    decreases n,
{
    if n > 0 {
        lemma_kept_matching(rows, keep, k, op, v, n - 1);
    }
}

/// The rows that a `WHERE` clause selects.
fn find_rows<S: Storage>(
    storage: &S,
    table: &str,
    schema: &TableSchema,
    selection: &Option<Condition>,
) -> (r: Result<Vec<Vec<Value>>, Error>)
    requires
        storage.wf(),
        storage.model().table(table@) is Ok,
        storage.model().table(table@)->Ok_0.schema == schema@,
    ensures
        match found(storage.model(), table@, opt_view(*selection)) {
            Ok(rows) => r matches Ok(v) && rows_view(v@) == rows,
            Err(e) => r matches Err(x) && x@ == e,
        },
        !io_failure(r),
{
    match selection {
        None => storage.scan(table),
        Some(cond) => {
            let k: usize = column_index(&schema.columns, cond.column.as_str())?;
            proof {
                assert(schema@.columns[k as int] == schema.columns@[k as int]@);
            }
            let expected = coerce(
                &cond.value,
                schema.columns[k].column_type,
                cond.column.as_str(),
            )?;
            let op: CompareOp = cond.op;
            if op == CompareOp::Eq && is_key(schema, cond.column.as_str()) {
                let mut rows: Vec<Vec<Value>> = Vec::new();
                match storage.lookup_by_primary_key(table, &expected)? {
                    Some(row) => {
                        rows.push(row);
                        proof {
                            assert(rows_view(rows@) =~= seq![views(row@)]);
                        }
                    },
                    None => {
                        proof {
                            assert(rows_view(rows@) =~= Seq::<Seq<ValueV>>::empty());
                        }
                    },
                }
                Ok(rows)
            } else {
                let filter = |row: &[Value]| -> (b: bool)
                    ensures
                        b == row_matches(views(row@), k as int, op, expected@),
                    {
                        if k < row.len() {
                            proof {
                                assert(views(row@)[k as int] == row@[k as int]@);
                            }
                            compare_values(&row[k], op, &expected)
                        } else {
                            false
                        }
                    };
                let rows = storage.scan_filtered(table, filter)?;
                proof {
                    let t = storage.model().table(table@)->Ok_0;
                    let (args, keep) = choose|args: Seq<&[Value]>, keep: Seq<bool>|
                        #![trigger kept(t.rows, keep, t.rows.len() as int), args.len()]
                        {
                            &&& args.len() == t.rows.len()
                            &&& keep.len() == t.rows.len()
                            &&& forall|i: int|
                                0 <= i < t.rows.len() ==> views((#[trigger] args[i])@) == t.rows[i]
                                    && call_ensures(filter, (args[i],), keep[i])
                            &&& rows_view(rows@) == kept(t.rows, keep, t.rows.len() as int)
                        };
                    assert forall|i: int| 0 <= i < t.rows.len() implies #[trigger] keep[i]
                        == row_matches(t.rows[i], k as int, op, expected@) by {
                        assert(views(args[i]@) == t.rows[i]);
                    }
                    lemma_kept_matching(
                        t.rows,
                        keep,
                        k as int,
                        op,
                        expected@,
                        t.rows.len() as int,
                    );
                }
                Ok(rows)
            }
        },
    }
}

/// One row's selected values.
fn pick_row(row: &Vec<Value>, picks: &Vec<Pick>) -> (r: Vec<Value>)
    ensures
        views(r@) == picked_row(views(row@), views(picks@)),
{
    let mut out: Vec<Value> = Vec::new();
    let mut i: usize = 0;
    while i < picks.len()
        invariant
            i <= picks@.len(),
            out@.len() == i,
            forall|k: int|
                0 <= k < i ==> (#[trigger] out@[k])@ == cell_or_null(
                    views(row@),
                    picks@[k].place as int,
                ),
        decreases picks@.len() - i,
    {
        let place: usize = picks[i].place;
        if place < row.len() {
            proof {
                assert(views(row@)[place as int] == row@[place as int]@);
            }
            out.push(row[place].duplicate());
        } else {
            out.push(Value::Null);
        }
        i = i + 1;
    }
    proof {
        assert(views(out@) =~= picked_row(views(row@), views(picks@)));
    }
    out
}

/// `SELECT ... FROM table`.
fn select_from_table<S: Storage>(
    storage: &S,
    table: &str,
    projection: &Vec<SelectItem>,
    selection: &Option<Condition>,
) -> (r: Result<QueryResult, Error>)
    requires
        storage.wf(),
    ensures
        match select_from(storage.model(), table@, views(projection@), opt_view(*selection)) {
            Ok(q) => r matches Ok(x) && x@ == q,
            Err(e) => r matches Err(x) && x@ == e,
        },
        !io_failure(r),
{
    let schema = storage.table_schema(table)?;
    let picks = resolve_projection(&schema.columns, projection)?;
    let found_rows = find_rows(storage, table, &schema, selection)?;
    let ghost cols = views(schema.columns@);
    let ghost ps = views(picks@);
    let mut columns: Vec<ColumnSchema> = Vec::new();
    let mut i: usize = 0;
    while i < picks.len()
        invariant
            i <= picks@.len(),
            cols == views(schema.columns@),
            ps == views(picks@),
            columns@.len() == i,
            forall|k: int| 0 <= k < picks@.len() ==> (#[trigger] picks@[k]).place
                < schema.columns@.len(),
            forall|k: int|
                0 <= k < i ==> (#[trigger] columns@[k])@ == (ColumnSchemaV {
                    name: ps[k].label,
                    ..cols[ps[k].place]
                }),
        decreases picks@.len() - i,
    {
        let column = &schema.columns[picks[i].place];
        proof {
            assert(cols[ps[i as int].place] == column@);
        }
        columns.push(
            ColumnSchema {
                name: picks[i].label.clone(),
                column_type: column.column_type,
                nullable: column.nullable,
                auto_increment: column.auto_increment,
            },
        );
        i = i + 1;
    }
    let mut rows: Vec<Vec<Value>> = Vec::new();
    let mut j: usize = 0;
    while j < found_rows.len()
        invariant
            j <= found_rows@.len(),
            ps == views(picks@),
            rows@.len() == j,
            forall|k: int|
                0 <= k < j ==> views((#[trigger] rows@[k])@) == picked_row(
                    views(found_rows@[k]@),
                    ps,
                ),
        decreases found_rows@.len() - j,
    {
        rows.push(pick_row(&found_rows[j], &picks));
        j = j + 1;
    }
    proof {
        assert(views(columns@) =~= picked_columns(cols, ps));
        assert(rows_view(rows@) =~= picked_rows(rows_view(found_rows@), ps));
    }
    Ok(QueryResult { columns, rows, rows_affected: 0 })
}

// ---------- SHOW ----------

fn text_heading(name: &str) -> (r: ColumnSchema)
    ensures
        r@ == text_column(name@),
{
    ColumnSchema {
        name: name.to_string(),
        column_type: ColumnType::Varchar,
        nullable: true,
        auto_increment: false,
    }
}

/// One row per name.
fn rows_of_names(names: &Vec<String>) -> (r: Vec<Vec<Value>>)
    ensures
        rows_view(r@) == name_rows(views(names@)),
{
    let mut rows: Vec<Vec<Value>> = Vec::new();
    let mut i: usize = 0;
    while i < names.len()
        invariant
            i <= names@.len(),
            rows@.len() == i,
            forall|k: int|
                0 <= k < i ==> views((#[trigger] rows@[k])@) == seq![
                    ValueV::Varchar(names@[k]@),
                ],
        decreases names@.len() - i,
    {
        let mut row: Vec<Value> = Vec::new();
        row.push(Value::Varchar(names[i].clone()));
        proof {
            assert(views(row@) =~= seq![ValueV::Varchar(names@[i as int]@)]);
        }
        rows.push(row);
        i = i + 1;
    }
    proof {
        assert(rows_view(rows@) =~= name_rows(views(names@)));
    }
    rows
}

/// The rows of `SHOW VARIABLES`.
fn rows_of_variables(vars: &SystemVariables, like: &Option<String>) -> (r: Vec<Vec<Value>>)
    ensures
        rows_view(r@) == variable_rows(known(vars@), opt_view(*like), known(vars@).len() as int),
{
    let list = vars.known_variables();
    let ghost all = known(vars@);
    let mut rows: Vec<Vec<Value>> = Vec::new();
    let mut i: usize = 0;
    proof {
        assert(rows_view(rows@) =~= Seq::<Seq<ValueV>>::empty());
    }
    while i < list.len()
        invariant
            i <= list@.len(),
            named_values(list@) == all,
            rows_view(rows@) == variable_rows(all, opt_view(*like), i as int),
        decreases list@.len() - i,
    {
        let shown: bool = match like {
            Some(pattern) => like_matches(pattern.as_str(), list[i].0.as_str()),
            None => true,
        };
        proof {
            assert(all[i as int] == (list@[i as int].0@, list@[i as int].1@));
            assert(shown == listed(opt_view(*like), all[i as int].0));
        }
        if shown {
            let mut row: Vec<Value> = Vec::new();
            row.push(Value::Varchar(list[i].0.clone()));
            row.push(list[i].1.duplicate());
            let ghost before = rows_view(rows@);
            rows.push(row);
            proof {
                assert(views(row@) =~= seq![ValueV::Varchar(all[i as int].0), all[i as int].1]);
                assert(rows_view(rows@) =~= before.push(views(row@)));
            }
        }
        i = i + 1;
    }
    rows
}

/// A `SHOW`: enough introspection that clients do not fail.
fn show_result<S: Storage>(storage: &S, vars: &SystemVariables, what: &ShowStatement) -> (r: Result<
    QueryResult,
    Error,
>)
    requires
        storage.wf(),
    ensures
        r matches Ok(q) && q@ == show(storage.model(), vars@, what@),
{
    let mut columns: Vec<ColumnSchema> = Vec::new();
    match what {
        ShowStatement::Databases => {
            let names = sort_names(&storage.databases()?);
            columns.push(text_heading("Database"));
            proof {
                assert(views(columns@) =~= seq![text_column("Database"@)]);
            }
            Ok(QueryResult { columns, rows: rows_of_names(&names), rows_affected: 0 })
        },
        ShowStatement::Tables => {
            let names = sort_names(&storage.tables()?);
            columns.push(text_heading("Tables_in_mysql_rust"));
            proof {
                assert(views(columns@) =~= seq![text_column("Tables_in_mysql_rust"@)]);
            }
            Ok(QueryResult { columns, rows: rows_of_names(&names), rows_affected: 0 })
        },
        ShowStatement::Warnings => {
            columns.push(text_heading("Level"));
            columns.push(text_heading("Code"));
            columns.push(text_heading("Message"));
            let rows: Vec<Vec<Value>> = Vec::new();
            proof {
                assert(views(columns@) =~= seq![
                    text_column("Level"@),
                    text_column("Code"@),
                    text_column("Message"@),
                ]);
                assert(rows_view(rows@) =~= Seq::<Seq<ValueV>>::empty());
            }
            Ok(QueryResult { columns, rows, rows_affected: 0 })
        },
        ShowStatement::Variables { like } => {
            columns.push(text_heading("Variable_name"));
            columns.push(text_heading("Value"));
            proof {
                assert(views(columns@) =~= seq![
                    text_column("Variable_name"@),
                    text_column("Value"@),
                ]);
            }
            Ok(QueryResult { columns, rows: rows_of_variables(vars, like), rows_affected: 0 })
        },
        _ => Ok(nothing(0)),
    }
}

// ---------- statements ----------

/// Run a statement against a store.
pub fn execute_statement<S: Storage>(
    storage: &mut S,
    vars: &SystemVariables,
    statement: Statement,
) -> (r: Result<QueryResult, Error>)
    requires
        old(storage).wf(),
    ensures
        final(storage).wf(),
        final(storage).held() == old(storage).held(),
        holds_back(statement@, old(storage).waiting(), final(storage).waiting()),
        io_failure(r) ==> is_write(statement@) && !S::volatile(),
        meets(
            r,
            final(storage).model(),
            executed(statement@, old(storage).model(), vars@, S::buffered()),
        ),
        !is_write(statement@) ==> *final(storage) == *old(storage),
        S::buffered() && statement@ is Insert ==> same_but_counters(
            final(storage).committed(),
            old(storage).committed(),
        ),
        defines(statement@) ==> meets(
            r,
            final(storage).committed(),
            executed(statement@, old(storage).committed(), vars@, S::buffered()),
        ),
{
    match &statement {
        Statement::CreateTable { table, columns } => create_table(storage, table.as_str(), columns),
        Statement::Insert { table, columns, rows } => insert_into(
            storage,
            table.as_str(),
            columns,
            rows,
        ),
        Statement::Select { projection, from, selection } => match from {
            Some(table) => select_from_table(&*storage, table.as_str(), projection, selection),
            None => select_without_table(vars, projection),
        },
        // These switch which store later statements use, so they are handled
        // before a statement gets here.
        Statement::Begin | Statement::Commit | Statement::Rollback => Err(
            Error::Execution(
                "transaction control statements must be handled by the connection layer"
                    .to_string(),
            ),
        ),
        // Accepted and acknowledged without effect.
        Statement::SetOption | Statement::Use => Ok(nothing(0)),
        Statement::Show(what) => show_result(&*storage, vars, what),
        Statement::CreateDatabase { name, if_not_exists } => {
            storage.create_database(name.as_str(), *if_not_exists)?;
            Ok(nothing(0))
        },
        Statement::DropDatabase { name, if_exists } => {
            storage.drop_database(name.as_str(), *if_exists)?;
            Ok(nothing(0))
        },
    }
}

/// Runs statements against a [`Storage`] backend.
pub struct Executor<'a, S: Storage> {
    pub storage: &'a mut S,
    pub vars: &'a SystemVariables,
}

impl<'a, S: Storage> Executor<'a, S> {
    pub fn new(storage: &'a mut S, vars: &'a SystemVariables) -> (r: Self)
        ensures
            *r.storage == *old(storage),
            *final(r.storage) == *final(storage),
            r.vars == vars,
    {
        Executor { storage, vars }
    }

    /// Run a statement.
    pub fn execute(&mut self, statement: Statement) -> (r: Result<QueryResult, Error>)
        requires
            old(self).storage.wf(),
        ensures
            final(self).storage.wf(),
            final(self).storage.held() == old(self).storage.held(),
            holds_back(statement@, old(self).storage.waiting(), final(self).storage.waiting()),
            final(self).vars == old(self).vars,
            *final(final(self).storage) == *final(old(self).storage),
            io_failure(r) ==> is_write(statement@) && !S::volatile(),
            meets(
                r,
                final(self).storage.model(),
                executed(statement@, old(self).storage.model(), old(self).vars@, S::buffered()),
            ),
            !is_write(statement@) ==> *final(self).storage == *old(self).storage,
            S::buffered() && statement@ is Insert ==> same_but_counters(
                final(self).storage.committed(),
                old(self).storage.committed(),
            ),
            defines(statement@) ==> meets(
                r,
                final(self).storage.committed(),
                executed(statement@, old(self).storage.committed(), old(self).vars@, S::buffered()),
            ),
    {
        execute_statement(self.storage, self.vars, statement)
    }
}

} // verus!
