//! What a store holds, mathematically, and what each operation does to it.
use vstd::prelude::*;

use crate::error::ErrorV;
use crate::seqs::views;
use crate::storage::log::{EntryV, PlacedRow};
use crate::storage::value::{ColumnSchemaV, TableSchemaV, Value, ValueV};
use crate::text::decimal;

verus! {

/// Names of tables, one after the other.
pub type NamesV = Seq<Seq<char>>;

/// Rows and the tables they go to, one after the other.
pub type PlacedRowsV = Seq<PlacedRow>;

/// The content of a table.
pub ghost struct TableV {
    pub schema: TableSchemaV,
    /// The rows, in insertion order.
    pub rows: Seq<Seq<ValueV>>,
    /// The next value of the `AUTO_INCREMENT` column, if there is one.
    pub next: Option<int>,
}

/// The content of a store.
pub ghost struct StoreV {
    pub tables: Map<Seq<char>, TableV>,
    pub databases: Set<Seq<char>>,
}

/// The rows of a vector of rows.
pub open spec fn rows_view(rows: Seq<Vec<Value>>) -> Seq<Seq<ValueV>> {
    Seq::new(rows.len(), |i: int| views(rows[i]@))
}

// ---------- schemas ----------

/// The place of the first column called `name`, from `i` on.
pub open spec fn column_from(columns: Seq<ColumnSchemaV>, name: Seq<char>, i: int) -> Option<int>
    decreases columns.len() - i,
{
    if i < 0 || i >= columns.len() {
        None
    } else if columns[i].name == name {
        Some(i)
    } else {
        column_from(columns, name, i + 1)
    }
}

/// The place of the first column called `name`.
pub open spec fn column_place(columns: Seq<ColumnSchemaV>, name: Seq<char>) -> Option<int> {
    column_from(columns, name, 0)
}

/// The place of the first `AUTO_INCREMENT` column, from `i` on.
pub open spec fn auto_from(columns: Seq<ColumnSchemaV>, i: int) -> Option<int>
    decreases columns.len() - i,
{
    if i < 0 || i >= columns.len() {
        None
    } else if columns[i].auto_increment {
        Some(i)
    } else {
        auto_from(columns, i + 1)
    }
}

impl TableSchemaV {
    /// The place of the primary-key column, if there is one.
    pub open spec fn key_place(self) -> Option<int> {
        match self.primary_key {
            Some(pk) => column_place(self.columns, pk),
            None => None,
        }
    }

    /// The place of the `AUTO_INCREMENT` column, if there is one.
    pub open spec fn auto_place(self) -> Option<int> {
        auto_from(self.columns, 0)
    }
}

pub proof fn lemma_column_from(columns: Seq<ColumnSchemaV>, name: Seq<char>, i: int)
    requires
        0 <= i,
    ensures
        match column_from(columns, name, i) {
            Some(k) => i <= k < columns.len() && columns[k].name == name,
            None => forall|j: int| i <= j < columns.len() ==> (#[trigger] columns[j]).name != name,
        },
    decreases columns.len() - i,
{
    if i < columns.len() && columns[i].name != name {
        lemma_column_from(columns, name, i + 1);
    }
}

pub proof fn lemma_auto_from(columns: Seq<ColumnSchemaV>, i: int)
    requires
        0 <= i,
    ensures
        match auto_from(columns, i) {
            Some(k) => i <= k < columns.len() && columns[k].auto_increment,
            None => forall|j: int|
                i <= j < columns.len() ==> !(#[trigger] columns[j]).auto_increment,
        },
    decreases columns.len() - i,
{
    if i < columns.len() && !columns[i].auto_increment {
        lemma_auto_from(columns, i + 1);
    }
}

// ---------- tables ----------

/// A table with no rows yet.
pub open spec fn new_table(columns: Seq<ColumnSchemaV>, primary_key: Option<Seq<char>>) -> TableV {
    TableV {
        schema: TableSchemaV { columns, primary_key },
        rows: Seq::empty(),
        next: if auto_from(columns, 0) is Some {
            Some(1)
        } else {
            None
        },
    }
}

/// The value in column `k` of a row, if the row is that long.
pub open spec fn cell(row: Seq<ValueV>, k: int) -> Option<ValueV> {
    if 0 <= k < row.len() {
        Some(row[k])
    } else {
        None
    }
}

/// The last of the first `n` rows whose column `k` holds `key`.
pub open spec fn last_with(rows: Seq<Seq<ValueV>>, k: int, key: ValueV, n: int) -> Option<int>
    decreases n,
{
    if n <= 0 || n > rows.len() {
        None
    } else if cell(rows[n - 1], k) == Some(key) {
        Some(n - 1)
    } else {
        last_with(rows, k, key, n - 1)
    }
}

/// One more than `n`, as far as the counter's range goes.
pub open spec fn following(n: int) -> int {
    if n < i64::MAX {
        n + 1
    } else {
        n
    }
}

/// The counter after a row whose counted column holds `v`: past the value, if
/// it is a number.
pub open spec fn counter_after(next: int, v: Option<ValueV>) -> int {
    match v {
        Some(ValueV::Int(n)) => if following(n as int) > next {
            following(n as int)
        } else {
            next
        },
        _ => next,
    }
}

impl TableV {
    /// The row stored under the primary key `key`.
    pub open spec fn lookup(self, key: ValueV) -> Option<Seq<ValueV>> {
        match self.schema.key_place() {
            None => None,
            Some(k) => match last_with(self.rows, k, key, self.rows.len() as int) {
                Some(i) => Some(self.rows[i]),
                None => None,
            },
        }
    }

    /// The table with `row` appended. The counter moves past the row's value
    /// only where `counted` says that rows are counted as they come.
    pub open spec fn with_row(self, row: Seq<ValueV>, counted: bool) -> TableV {
        TableV {
            schema: self.schema,
            rows: self.rows.push(row),
            next: match (self.next, self.schema.auto_place()) {
                (Some(n), Some(k)) => if counted {
                    Some(counter_after(n, cell(row, k)))
                } else {
                    Some(n)
                },
                _ => self.next,
            },
        }
    }

    /// Why `row` cannot be inserted into this table called `name`, if it
    /// cannot.
    pub open spec fn refusal(self, name: Seq<char>, row: Seq<ValueV>) -> Option<ErrorV> {
        if row.len() != self.schema.columns.len() {
            Some(wrong_count(name, self.schema.columns.len(), row.len()))
        } else {
            match self.schema.key_place() {
                None => None,
                Some(k) => if self.lookup(row[k]) is Some {
                    Some(duplicate_key(row[k]))
                } else {
                    None
                },
            }
        }
    }
}

// ---------- errors ----------

pub open spec fn no_such_table(name: Seq<char>) -> ErrorV {
    ErrorV::Execution("Table '"@ + name + "' doesn't exist"@)
}

pub open spec fn table_exists(name: Seq<char>) -> ErrorV {
    ErrorV::Execution("Table '"@ + name + "' already exists"@)
}

pub open spec fn undefined_key(name: Seq<char>) -> ErrorV {
    ErrorV::Execution("Primary key column '"@ + name + "' is not defined"@)
}

pub open spec fn wrong_count(table: Seq<char>, columns: nat, values: nat) -> ErrorV {
    ErrorV::Execution(
        "Column count doesn't match value count: table '"@ + table + "' has "@ + decimal(columns)
            + " column(s), got "@ + decimal(values),
    )
}

pub open spec fn duplicate_key(key: ValueV) -> ErrorV {
    ErrorV::Execution("Duplicate entry '"@ + key.shown() + "' for key 'PRIMARY'"@)
}

pub open spec fn no_auto_increment(table: Seq<char>) -> ErrorV {
    ErrorV::Execution("Table '"@ + table + "' has no AUTO_INCREMENT column"@)
}

pub open spec fn database_exists(name: Seq<char>) -> ErrorV {
    ErrorV::Execution("Can't create database '"@ + name + "'; database exists"@)
}

pub open spec fn no_such_database(name: Seq<char>) -> ErrorV {
    ErrorV::Execution("Can't drop database '"@ + name + "'; database doesn't exist"@)
}

// ---------- stores ----------

impl StoreV {
    /// A store with nothing in it.
    pub open spec fn empty() -> StoreV {
        StoreV { tables: Map::empty(), databases: Set::empty() }
    }

    /// The store with `t` as its table `name`.
    pub open spec fn with_table(self, name: Seq<char>, t: TableV) -> StoreV {
        StoreV { tables: self.tables.insert(name, t), databases: self.databases }
    }

    /// `CREATE TABLE`: the new store, or why there is none.
    pub open spec fn create_table(
        self,
        name: Seq<char>,
        columns: Seq<ColumnSchemaV>,
        primary_key: Option<Seq<char>>,
    ) -> Result<StoreV, ErrorV> {
        if primary_key is Some && column_place(columns, primary_key->0) is None {
            Err(undefined_key(primary_key->0))
        } else if self.tables.contains_key(name) {
            Err(table_exists(name))
        } else {
            Ok(self.with_table(name, new_table(columns, primary_key)))
        }
    }

    /// The table called `name`.
    pub open spec fn table(self, name: Seq<char>) -> Result<TableV, ErrorV> {
        if self.tables.contains_key(name) {
            Ok(self.tables[name])
        } else {
            Err(no_such_table(name))
        }
    }

    /// Why a row cannot be inserted, if it cannot.
    pub open spec fn refusal(self, p: PlacedRow) -> Option<ErrorV> {
        match self.table(p.table) {
            Err(e) => Some(e),
            Ok(t) => t.refusal(p.table, p.row),
        }
    }

    /// The store with a row appended to its table, if it has that table.
    pub open spec fn with_row(self, p: PlacedRow, counted: bool) -> StoreV {
        if self.tables.contains_key(p.table) {
            self.with_table(p.table, self.tables[p.table].with_row(p.row, counted))
        } else {
            self
        }
    }

    /// Inserting the first `n` of `rows` one after the other: the store after
    /// the last that went in, and why the next did not, if it did not.
    pub open spec fn insert_each(self, rows: Seq<PlacedRow>, counted: bool, n: int) -> (
        StoreV,
        Option<ErrorV>,
    )
        decreases n,
    {
        if n <= 0 || n > rows.len() {
            (self, None)
        } else {
            let (s, failure) = self.insert_each(rows, counted, n - 1);
            if failure is Some {
                (s, failure)
            } else {
                match s.refusal(rows[n - 1]) {
                    Some(e) => (s, Some(e)),
                    None => (s.with_row(rows[n - 1], counted), None),
                }
            }
        }
    }

    /// How many of the first `n` of `rows` go in before one is refused.
    pub open spec fn fitting_of(self, rows: Seq<PlacedRow>, n: int) -> int
        decreases n,
    {
        if n <= 0 || n > rows.len() {
            0
        } else if self.insert_each(rows, false, n).1 is None {
            n
        } else {
            self.fitting_of(rows, n - 1)
        }
    }

    /// How many of `rows` go in before one is refused.
    pub open spec fn fitting(self, rows: Seq<PlacedRow>) -> int {
        self.fitting_of(rows, rows.len() as int)
    }

    /// Inserting a batch. A buffered store keeps what went in before a
    /// failure; any other takes all of the batch or nothing.
    pub open spec fn insert_batch(self, rows: Seq<PlacedRow>, buffered: bool) -> (
        StoreV,
        Option<ErrorV>,
    ) {
        let (s, failure) = self.insert_each(rows, !buffered, rows.len() as int);
        (
            if failure is Some && !buffered {
                self
            } else {
                s
            },
            failure,
        )
    }

    /// Reserving the next `AUTO_INCREMENT` value of a table: the value and the
    /// store after.
    pub open spec fn reserve(self, table: Seq<char>) -> Result<(int, StoreV), ErrorV> {
        match self.table(table) {
            Err(e) => Err(e),
            Ok(t) => match t.next {
                None => Err(no_auto_increment(table)),
                Some(n) => Ok(
                    (n, self.with_table(table, TableV { next: Some(following(n)), ..t })),
                ),
            },
        }
    }

    /// `CREATE DATABASE`.
    pub open spec fn create_database(self, name: Seq<char>, if_not_exists: bool) -> Result<
        StoreV,
        ErrorV,
    > {
        if self.databases.contains(name) && !if_not_exists {
            Err(database_exists(name))
        } else {
            Ok(StoreV { tables: self.tables, databases: self.databases.insert(name) })
        }
    }

    /// `DROP DATABASE`.
    pub open spec fn drop_database(self, name: Seq<char>, if_exists: bool) -> Result<
        StoreV,
        ErrorV,
    > {
        if !self.databases.contains(name) && !if_exists {
            Err(no_such_database(name))
        } else {
            Ok(StoreV { tables: self.tables, databases: self.databases.remove(name) })
        }
    }

    /// The store with rows appended to their tables, unchecked.
    pub open spec fn with_rows(self, rows: Seq<PlacedRow>) -> StoreV
        decreases rows.len(),
    {
        if rows.len() == 0 {
            self
        } else {
            self.with_rows(rows.drop_last()).with_row(rows.last(), true)
        }
    }

    /// The store after replaying a logged operation, unchecked: it was checked
    /// when it was logged.
    pub open spec fn apply(self, e: EntryV) -> StoreV {
        match e {
            EntryV::CreateTable { table, columns, primary_key } => self.with_table(
                table,
                new_table(columns, primary_key),
            ),
            EntryV::InsertRow { placed } => self.with_row(placed, true),
            EntryV::Transaction { rows } => self.with_rows(rows),
            EntryV::CreateDatabase { name } => StoreV {
                tables: self.tables,
                databases: self.databases.insert(name),
            },
            EntryV::DropDatabase { name } => StoreV {
                tables: self.tables,
                databases: self.databases.remove(name),
            },
        }
    }

    /// The store after replaying logged operations in order.
    pub open spec fn apply_all(self, es: Seq<EntryV>) -> StoreV
        decreases es.len(),
    {
        if es.len() == 0 {
            self
        } else {
            self.apply_all(es.drop_last()).apply(es.last())
        }
    }
}

/// No more rows go in than there are.
pub proof fn lemma_fitting_in_range(s: StoreV, rows: Seq<PlacedRow>, n: int)
    requires
        0 <= n <= rows.len(),
    ensures
        0 <= s.fitting_of(rows, n) <= n,
    decreases n,
{
    if n > 0 {
        lemma_fitting_in_range(s, rows, n - 1);
    }
}

/// Whether `s` lists the members of `set`, each once.
pub open spec fn lists(s: Seq<Seq<char>>, set: Set<Seq<char>>) -> bool {
    s.no_duplicates() && forall|x: Seq<char>| s.contains(x) <==> #[trigger] set.contains(x)
}

} // verus!
