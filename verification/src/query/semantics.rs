//! What each statement means: from the content of the store to its new
//! content and the statement's result.
use vstd::prelude::*;

use crate::error::ErrorV;
use crate::query::ast::{
    ColumnDefV, CompareOp, ConditionV, ExprV, SelectItemV, ShowStatementV, StatementV,
};
use crate::query::eval::{coerced, holds, is_like, unbound_parameter};
use crate::query::order::in_order;
use crate::query::variables::{function_value, known, variable, SystemVariablesV};
use crate::storage::log::PlacedRow;
use crate::storage::model::{cell, column_place, wrong_count, StoreV};
use crate::storage::value::{type_named, ColumnSchemaV, ColumnType, TableSchemaV, ValueV};
use crate::text::{decimal, decimal_int};

verus! {

/// The content of a query result.
pub ghost struct QueryResultV {
    pub columns: Seq<ColumnSchemaV>,
    pub rows: Seq<Seq<ValueV>>,
    pub affected: int,
}

/// A result with no columns and no rows, for statements that return none.
pub open spec fn affected(n: int) -> QueryResultV {
    QueryResultV { columns: Seq::empty(), rows: Seq::empty(), affected: n }
}

/// A column that belongs to no table.
pub open spec fn computed_column(name: Seq<char>, column_type: ColumnType) -> ColumnSchemaV {
    ColumnSchemaV { name, column_type, nullable: true, auto_increment: false }
}

pub open spec fn text_column(name: Seq<char>) -> ColumnSchemaV {
    computed_column(name, ColumnType::Varchar)
}

// ---------- CREATE TABLE ----------

pub open spec fn unknown_type(type_text: Seq<char>, column: Seq<char>) -> ErrorV {
    ErrorV::Execution(
        "Unknown column type '"@ + type_text + "' for column '"@ + column + "'"@,
    )
}

pub open spec fn two_keys() -> ErrorV {
    ErrorV::Execution("multiple primary key columns are not supported"@)
}

pub open spec fn misplaced_counter(column: Seq<char>) -> ErrorV {
    ErrorV::Execution("AUTO_INCREMENT column '"@ + column + "' must be the primary key"@)
}

/// The columns and the primary key that the first `n` column definitions
/// declare. A primary key never takes `NULL`.
pub open spec fn declared(defs: Seq<ColumnDefV>, n: int) -> Result<
    (Seq<ColumnSchemaV>, Option<Seq<char>>),
    ErrorV,
>
    decreases n,
{
    if n <= 0 || n > defs.len() {
        Ok((Seq::empty(), None))
    } else {
        match declared(defs, n - 1) {
            Err(e) => Err(e),
            Ok((columns, key)) => {
                let d = defs[n - 1];
                match type_named(d.type_text) {
                    None => Err(unknown_type(d.type_text, d.name)),
                    Some(t) => if d.is_primary_key && key is Some {
                        Err(two_keys())
                    } else if d.auto_increment && !d.is_primary_key {
                        Err(misplaced_counter(d.name))
                    } else {
                        Ok(
                            (
                                columns.push(
                                    ColumnSchemaV {
                                        name: d.name,
                                        column_type: t,
                                        nullable: d.nullable && !d.is_primary_key,
                                        auto_increment: d.auto_increment,
                                    },
                                ),
                                if d.is_primary_key {
                                    Some(d.name)
                                } else {
                                    key
                                },
                            ),
                        )
                    },
                }
            },
        }
    }
}

// ---------- INSERT ----------

pub open spec fn named_count(columns: nat, values: nat) -> ErrorV {
    ErrorV::Execution(
        "Column count doesn't match value count: "@ + decimal(columns)
            + " column(s) named, "@ + decimal(values) + " value(s) given"@,
    )
}

pub open spec fn not_a_column(name: Seq<char>) -> ErrorV {
    ErrorV::Execution("Unknown column '"@ + name + "' in field list"@)
}

pub open spec fn no_default(name: Seq<char>) -> ErrorV {
    ErrorV::Execution("Column '"@ + name + "' has no default value and was not given a value"@)
}

pub open spec fn null_key(name: Seq<char>) -> ErrorV {
    ErrorV::Execution("Column '"@ + name + "' cannot be NULL (primary key)"@)
}

pub open spec fn null_column(name: Seq<char>) -> ErrorV {
    ErrorV::Execution("Column '"@ + name + "' cannot be NULL"@)
}

/// The first of `names`, from `i` on, that is no column of the table.
pub open spec fn stranger(columns: Seq<ColumnSchemaV>, names: Seq<Seq<char>>, i: int) -> Option<
    Seq<char>,
>
    decreases names.len() - i,
{
    if i < 0 || i >= names.len() {
        None
    } else if column_place(columns, names[i]) is None {
        Some(names[i])
    } else {
        stranger(columns, names, i + 1)
    }
}

/// The place of the last of the first `n` names that is `name`.
pub open spec fn last_named(names: Seq<Seq<char>>, name: Seq<char>, n: int) -> Option<int>
    decreases n,
{
    if n <= 0 || n > names.len() {
        None
    } else if names[n - 1] == name {
        Some(n - 1)
    } else {
        last_named(names, name, n - 1)
    }
}

/// The value given to the table's column `c` by `(names) VALUES (values)`: the
/// last one given under its name, and that only once if several columns share
/// the name.
pub open spec fn given(
    columns: Seq<ColumnSchemaV>,
    names: Seq<Seq<char>>,
    values: Seq<ExprV>,
    c: int,
) -> Option<ExprV> {
    match last_named(names, columns[c].name, names.len() as int) {
        Some(i) => if column_place(columns, columns[c].name) == Some(c) {
            Some(values[i])
        } else {
            None
        },
        None => None,
    }
}

/// The values for the first `n` columns of the table, in table order. Only an
/// `AUTO_INCREMENT` column may be left out.
pub open spec fn reordered(
    columns: Seq<ColumnSchemaV>,
    names: Seq<Seq<char>>,
    values: Seq<ExprV>,
    n: int,
) -> Result<Seq<ExprV>, ErrorV>
    decreases n,
{
    if n <= 0 || n > columns.len() {
        Ok(Seq::empty())
    } else {
        match reordered(columns, names, values, n - 1) {
            Err(e) => Err(e),
            Ok(s) => match given(columns, names, values, n - 1) {
                Some(v) => Ok(s.push(v)),
                None => if columns[n - 1].auto_increment {
                    Ok(s.push(ExprV::Null))
                } else {
                    Err(no_default(columns[n - 1].name))
                },
            },
        }
    }
}

/// The values of one inserted row, in table order.
pub open spec fn ordered(
    columns: Seq<ColumnSchemaV>,
    names: Option<Seq<Seq<char>>>,
    values: Seq<ExprV>,
) -> Result<Seq<ExprV>, ErrorV> {
    match names {
        None => Ok(values),
        Some(names) => if names.len() != values.len() {
            Err(named_count(names.len(), values.len()))
        } else {
            match stranger(columns, names, 0) {
                Some(name) => Err(not_a_column(name)),
                None => reordered(columns, names, values, columns.len() as int),
            }
        },
    }
}

/// The stored values of the first `n` columns of a row, and the store after
/// the `AUTO_INCREMENT` values that it took.
pub open spec fn stored_values(
    s: StoreV,
    table: Seq<char>,
    schema: TableSchemaV,
    exprs: Seq<ExprV>,
    n: int,
) -> (StoreV, Result<Seq<ValueV>, ErrorV>)
    decreases n,
{
    if n <= 0 || n > schema.columns.len() {
        (s, Ok(Seq::empty()))
    } else {
        let (s1, front) = stored_values(s, table, schema, exprs, n - 1);
        let c = schema.columns[n - 1];
        match front {
            Err(e) => (s1, Err(e)),
            Ok(values) => match coerced(exprs[n - 1], c.column_type, c.name) {
                Err(e) => (s1, Err(e)),
                Ok(v) => if v != ValueV::Null {
                    (s1, Ok(values.push(v)))
                } else if c.auto_increment {
                    match s1.reserve(table) {
                        Err(e) => (s1, Err(e)),
                        Ok((k, s2)) => (s2, Ok(values.push(ValueV::Int(k as i64)))),
                    }
                } else if schema.primary_key == Some(c.name) {
                    (s1, Err(null_key(c.name)))
                } else if !c.nullable {
                    (s1, Err(null_column(c.name)))
                } else {
                    (s1, Ok(values.push(v)))
                },
            },
        }
    }
}

/// One row of an `INSERT`, ready to be stored.
pub open spec fn stored_row(
    s: StoreV,
    table: Seq<char>,
    schema: TableSchemaV,
    names: Option<Seq<Seq<char>>>,
    values: Seq<ExprV>,
) -> (StoreV, Result<Seq<ValueV>, ErrorV>) {
    match ordered(schema.columns, names, values) {
        Err(e) => (s, Err(e)),
        Ok(exprs) => if exprs.len() != schema.columns.len() {
            (s, Err(wrong_count(table, schema.columns.len(), exprs.len())))
        } else {
            stored_values(s, table, schema, exprs, schema.columns.len() as int)
        },
    }
}

/// The first `n` rows of an `INSERT`, ready to be stored.
pub open spec fn stored_rows(
    s: StoreV,
    table: Seq<char>,
    schema: TableSchemaV,
    names: Option<Seq<Seq<char>>>,
    rows: Seq<Seq<ExprV>>,
    n: int,
) -> (StoreV, Result<Seq<PlacedRow>, ErrorV>)
    decreases n,
{
    if n <= 0 || n > rows.len() {
        (s, Ok(Seq::empty()))
    } else {
        let (s1, front) = stored_rows(s, table, schema, names, rows, n - 1);
        match front {
            Err(e) => (s1, Err(e)),
            Ok(placed) => {
                let (s2, row) = stored_row(s1, table, schema, names, rows[n - 1]);
                match row {
                    Err(e) => (s2, Err(e)),
                    Ok(row) => (s2, Ok(placed.push(PlacedRow { table, row }))),
                }
            },
        }
    }
}

// ---------- SELECT ----------

pub open spec fn wildcard_alone() -> ErrorV {
    ErrorV::Execution("SELECT * requires a FROM clause"@)
}

pub open spec fn not_in_field_list(name: Seq<char>) -> ErrorV {
    ErrorV::Execution("Unknown column '"@ + name + "' in 'field list'"@)
}

pub open spec fn wildcard_mixed() -> ErrorV {
    ErrorV::Execution("'*' cannot be combined with other selected columns"@)
}

pub open spec fn literal_with_table() -> ErrorV {
    ErrorV::Unsupported("literal expressions in a SELECT list alongside a FROM clause"@)
}

pub open spec fn unknown_column(name: Seq<char>) -> ErrorV {
    ErrorV::Execution("Unknown column '"@ + name + "'"@)
}

/// The value of an expression outside any table, and the label it has unless
/// it is given another.
pub open spec fn standalone(e: ExprV, v: SystemVariablesV) -> Result<(Seq<char>, ValueV), ErrorV> {
    match e {
        ExprV::Integer(n) => Ok((decimal_int(n as int), ValueV::Int(n))),
        ExprV::String(s) => Ok((s, ValueV::Varchar(s))),
        ExprV::Null => Ok(("NULL"@, ValueV::Null)),
        ExprV::SystemVariable(name) => Ok(("@@"@ + name, variable(v, name))),
        ExprV::Function(name, args) => Ok((name + "()"@, function_value(v, name))),
        ExprV::Column(name) => Err(not_in_field_list(name)),
        ExprV::Placeholder(_) => Err(unbound_parameter()),
    }
}

pub open spec fn or_label(alias: Option<Seq<char>>, label: Seq<char>) -> Seq<char> {
    match alias {
        Some(a) => a,
        None => label,
    }
}

/// The columns and the values of the first `n` items of a `SELECT` list
/// without a table. Numbers are reported as an `INT` column.
pub open spec fn computed(items: Seq<SelectItemV>, v: SystemVariablesV, n: int) -> Result<
    (Seq<ColumnSchemaV>, Seq<ValueV>),
    ErrorV,
>
    decreases n,
{
    if n <= 0 || n > items.len() {
        Ok((Seq::empty(), Seq::empty()))
    } else {
        match computed(items, v, n - 1) {
            Err(e) => Err(e),
            Ok((columns, values)) => match items[n - 1] {
                SelectItemV::Wildcard => Err(wildcard_alone()),
                SelectItemV::Expr(e, alias) => match standalone(e, v) {
                    Err(e) => Err(e),
                    Ok((label, value)) => Ok(
                        (
                            columns.push(
                                computed_column(
                                    or_label(alias, label),
                                    if value is Int {
                                        ColumnType::Int
                                    } else {
                                        ColumnType::Varchar
                                    },
                                ),
                            ),
                            values.push(value),
                        ),
                    ),
                },
            },
        }
    }
}

/// A selected column: its place in the table and its label.
pub ghost struct PickV {
    pub place: int,
    pub label: Seq<char>,
}

/// The columns that the first `n` items of a `SELECT` list name.
pub open spec fn picked(columns: Seq<ColumnSchemaV>, items: Seq<SelectItemV>, n: int) -> Result<
    Seq<PickV>,
    ErrorV,
>
    decreases n,
{
    if n <= 0 || n > items.len() {
        Ok(Seq::empty())
    } else {
        match picked(columns, items, n - 1) {
            Err(e) => Err(e),
            Ok(s) => match items[n - 1] {
                SelectItemV::Wildcard => Err(wildcard_mixed()),
                SelectItemV::Expr(ExprV::Column(name), alias) => match column_place(columns, name) {
                    None => Err(unknown_column(name)),
                    Some(place) => Ok(s.push(PickV { place, label: or_label(alias, name) })),
                },
                SelectItemV::Expr(_, _) => Err(literal_with_table()),
            },
        }
    }
}

/// The columns that a `SELECT` list names: all of them for `*` alone.
pub open spec fn selected(columns: Seq<ColumnSchemaV>, items: Seq<SelectItemV>) -> Result<
    Seq<PickV>,
    ErrorV,
> {
    if items.len() == 1 && items[0] is Wildcard {
        Ok(Seq::new(columns.len(), |i: int| PickV { place: i, label: columns[i].name }))
    } else {
        picked(columns, items, items.len() as int)
    }
}

/// The value in column `k` of a row.
pub open spec fn cell_or_null(row: Seq<ValueV>, k: int) -> ValueV {
    match cell(row, k) {
        Some(v) => v,
        None => ValueV::Null,
    }
}

pub open spec fn picked_columns(columns: Seq<ColumnSchemaV>, picks: Seq<PickV>) -> Seq<
    ColumnSchemaV,
> {
    Seq::new(
        picks.len(),
        |i: int| ColumnSchemaV { name: picks[i].label, ..columns[picks[i].place] },
    )
}

pub open spec fn picked_row(row: Seq<ValueV>, picks: Seq<PickV>) -> Seq<ValueV> {
    Seq::new(picks.len(), |i: int| cell_or_null(row, picks[i].place))
}

pub open spec fn picked_rows(rows: Seq<Seq<ValueV>>, picks: Seq<PickV>) -> Seq<Seq<ValueV>> {
    Seq::new(rows.len(), |i: int| picked_row(rows[i], picks))
}

/// Whether column `k` of a row compares as asked with `v`.
pub open spec fn row_matches(row: Seq<ValueV>, k: int, op: CompareOp, v: ValueV) -> bool {
    holds(cell_or_null(row, k), op, v)
}

/// Those of the first `n` rows whose column `k` compares as asked with `v`, in
/// order.
pub open spec fn matching(
    rows: Seq<Seq<ValueV>>,
    k: int,
    op: CompareOp,
    v: ValueV,
    n: int,
) -> Seq<Seq<ValueV>>
    decreases n,
{
    if n <= 0 || n > rows.len() {
        Seq::empty()
    } else if row_matches(rows[n - 1], k, op, v) {
        matching(rows, k, op, v, n - 1).push(rows[n - 1])
    } else {
        matching(rows, k, op, v, n - 1)
    }
}

/// The rows of a table that a `WHERE` clause selects. Equality with the
/// primary key is a lookup.
pub open spec fn found(s: StoreV, table: Seq<char>, selection: Option<ConditionV>) -> Result<
    Seq<Seq<ValueV>>,
    ErrorV,
> {
    match s.table(table) {
        Err(e) => Err(e),
        Ok(t) => match selection {
            None => Ok(t.rows),
            Some(c) => match column_place(t.schema.columns, c.column) {
                None => Err(unknown_column(c.column)),
                Some(k) => match coerced(c.value, t.schema.columns[k].column_type, c.column) {
                    Err(e) => Err(e),
                    Ok(v) => if c.op == CompareOp::Eq && t.schema.primary_key == Some(c.column) {
                        Ok(
                            match t.lookup(v) {
                                Some(row) => seq![row],
                                None => Seq::empty(),
                            },
                        )
                    } else {
                        Ok(matching(t.rows, k, c.op, v, t.rows.len() as int))
                    },
                },
            },
        },
    }
}

/// The result of `SELECT ... FROM table`.
pub open spec fn select_from(
    s: StoreV,
    table: Seq<char>,
    items: Seq<SelectItemV>,
    selection: Option<ConditionV>,
) -> Result<QueryResultV, ErrorV> {
    match s.table(table) {
        Err(e) => Err(e),
        Ok(t) => match selected(t.schema.columns, items) {
            Err(e) => Err(e),
            Ok(picks) => match found(s, table, selection) {
                Err(e) => Err(e),
                Ok(rows) => Ok(
                    QueryResultV {
                        columns: picked_columns(t.schema.columns, picks),
                        rows: picked_rows(rows, picks),
                        affected: 0,
                    },
                ),
            },
        },
    }
}

/// The result of a `SELECT`.
pub open spec fn select(
    s: StoreV,
    v: SystemVariablesV,
    items: Seq<SelectItemV>,
    from: Option<Seq<char>>,
    selection: Option<ConditionV>,
) -> Result<QueryResultV, ErrorV> {
    match from {
        Some(table) => select_from(s, table, items, selection),
        None => match computed(items, v, items.len() as int) {
            Err(e) => Err(e),
            Ok((columns, values)) => Ok(
                QueryResultV { columns, rows: seq![values], affected: 0 },
            ),
        },
    }
}

// ---------- SHOW ----------

/// One row per name.
pub open spec fn name_rows(names: Seq<Seq<char>>) -> Seq<Seq<ValueV>> {
    Seq::new(names.len(), |i: int| seq![ValueV::Varchar(names[i])])
}

/// Whether a variable is listed.
pub open spec fn listed(like: Option<Seq<char>>, name: Seq<char>) -> bool {
    match like {
        Some(pattern) => is_like(pattern, name),
        None => true,
    }
}

/// The rows of `SHOW VARIABLES` for the first `n` variables.
pub open spec fn variable_rows(
    list: Seq<(Seq<char>, ValueV)>,
    like: Option<Seq<char>>,
    n: int,
) -> Seq<Seq<ValueV>>
    decreases n,
{
    if n <= 0 || n > list.len() {
        Seq::empty()
    } else if listed(like, list[n - 1].0) {
        variable_rows(list, like, n - 1).push(
            seq![ValueV::Varchar(list[n - 1].0), list[n - 1].1],
        )
    } else {
        variable_rows(list, like, n - 1)
    }
}

/// The result of a `SHOW`. Forms that are not modelled are empty.
pub open spec fn show(s: StoreV, v: SystemVariablesV, what: ShowStatementV) -> QueryResultV {
    match what {
        ShowStatementV::Databases => QueryResultV {
            columns: seq![text_column("Database"@)],
            rows: name_rows(in_order(s.databases)),
            affected: 0,
        },
        ShowStatementV::Tables => QueryResultV {
            columns: seq![text_column("Tables_in_mysql_rust"@)],
            rows: name_rows(in_order(s.tables.dom())),
            affected: 0,
        },
        ShowStatementV::Warnings => QueryResultV {
            columns: seq![text_column("Level"@), text_column("Code"@), text_column("Message"@)],
            rows: Seq::empty(),
            affected: 0,
        },
        ShowStatementV::Variables { like } => QueryResultV {
            columns: seq![text_column("Variable_name"@), text_column("Value"@)],
            rows: variable_rows(known(v), like, known(v).len() as int),
            affected: 0,
        },
        _ => affected(0),
    }
}

// ---------- statements ----------

/// What a statement does.
pub ghost struct EffectV {
    /// The store before the one change that a failing disk can prevent.
    pub prepared: StoreV,
    /// The store after the statement.
    pub store: StoreV,
    pub result: Result<QueryResultV, ErrorV>,
}

/// A statement that changes nothing.
pub open spec fn reads(s: StoreV, result: Result<QueryResultV, ErrorV>) -> EffectV {
    EffectV { prepared: s, store: s, result }
}

/// A statement that makes one change or fails.
pub open spec fn writes(s: StoreV, wanted: Result<StoreV, ErrorV>) -> EffectV {
    match wanted {
        Ok(after) => EffectV { prepared: s, store: after, result: Ok(affected(0)) },
        Err(e) => reads(s, Err(e)),
    }
}

/// What an `INSERT` does.
pub open spec fn insert(
    s: StoreV,
    table: Seq<char>,
    names: Option<Seq<Seq<char>>>,
    rows: Seq<Seq<ExprV>>,
    buffered: bool,
) -> EffectV {
    match s.table(table) {
        Err(e) => reads(s, Err(e)),
        Ok(t) => {
            let (s1, placed) = stored_rows(s, table, t.schema, names, rows, rows.len() as int);
            match placed {
                Err(e) => reads(s1, Err(e)),
                Ok(placed) => {
                    let (s2, failure) = s1.insert_batch(placed, buffered);
                    EffectV {
                        prepared: s1,
                        store: s2,
                        result: match failure {
                            Some(e) => Err(e),
                            None => Ok(affected(rows.len() as int)),
                        },
                    }
                },
            }
        },
    }
}

pub open spec fn misplaced_control() -> ErrorV {
    ErrorV::Execution("transaction control statements must be handled by the connection layer"@)
}

/// What a `CREATE TABLE` does.
pub open spec fn create(s: StoreV, table: Seq<char>, defs: Seq<ColumnDefV>) -> EffectV {
    match declared(defs, defs.len() as int) {
        Err(e) => reads(s, Err(e)),
        Ok((columns, key)) => writes(s, s.create_table(table, columns, key)),
    }
}

/// What a statement does.
pub open spec fn executed(st: StatementV, s: StoreV, v: SystemVariablesV, buffered: bool) -> EffectV {
    match st {
        StatementV::CreateTable { table, columns } => create(s, table, columns),
        StatementV::Insert { table, columns, rows } => insert(s, table, columns, rows, buffered),
        StatementV::Select { projection, from, selection } => reads(
            s,
            select(s, v, projection, from, selection),
        ),
        StatementV::Begin => reads(s, Err(misplaced_control())),
        StatementV::Commit => reads(s, Err(misplaced_control())),
        StatementV::Rollback => reads(s, Err(misplaced_control())),
        StatementV::SetOption => reads(s, Ok(affected(0))),
        StatementV::Use => reads(s, Ok(affected(0))),
        StatementV::Show(what) => reads(s, Ok(show(s, v, what))),
        StatementV::CreateDatabase { name, if_not_exists } => writes(
            s,
            s.create_database(name, if_not_exists),
        ),
        StatementV::DropDatabase { name, if_exists } => writes(
            s,
            s.drop_database(name, if_exists),
        ),
    }
}

/// Whether the rows held back are those of `before` and, behind them, rows of
/// `table`.
pub open spec fn more_of(
    before: Seq<PlacedRow>,
    after: Seq<PlacedRow>,
    table: Seq<char>,
) -> bool {
    &&& before.len() <= after.len()
    &&& after.take(before.len() as int) == before
    &&& forall|i: int| before.len() <= i < after.len() ==> (#[trigger] after[i]).table == table
}

/// Which rows a statement may add to those held back: those of the table that
/// it inserts into.
pub open spec fn holds_back(
    st: StatementV,
    before: Seq<PlacedRow>,
    after: Seq<PlacedRow>,
) -> bool {
    match st {
        StatementV::Insert { table, .. } => more_of(before, after, table),
        _ => after == before,
    }
}

/// Whether a statement can change the store.
pub open spec fn is_write(st: StatementV) -> bool {
    st is Insert || defines(st)
}

/// Whether a statement creates or drops something. No transaction holds that
/// back.
pub open spec fn defines(st: StatementV) -> bool {
    st is CreateTable || st is CreateDatabase || st is DropDatabase
}

} // verus!
