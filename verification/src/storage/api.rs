//! The interface between statement execution and the engines that store data.
use vstd::prelude::*;
use std::sync::Arc;

use crate::error::{Error, ErrorV};
use crate::seqs::{opt_view, views};
use crate::storage::log::{placed_rows, PlacedRow};
use crate::storage::model::{lists, rows_view, NamesV, PlacedRowsV, StoreV};
use crate::storage::value::{ColumnSchema, TableSchema, Value, ValueV};

verus! {

/// Whether two stores hold the same tables, rows and databases, whatever their
/// `AUTO_INCREMENT` counters say.
pub open spec fn same_but_counters(a: StoreV, b: StoreV) -> bool {
    &&& a.tables.dom() == b.tables.dom()
    &&& a.databases == b.databases
    &&& forall|t: Seq<char>| #[trigger]
        a.tables.contains_key(t) ==> a.tables[t].schema == b.tables[t].schema && a.tables[t].rows
            == b.tables[t].rows
}

pub proof fn lemma_same_but_counters(a: StoreV, b: StoreV, c: StoreV)
    ensures
        same_but_counters(a, a),
        same_but_counters(a, b) && same_but_counters(b, c) ==> same_but_counters(a, c),
{
    if same_but_counters(a, b) && same_but_counters(b, c) {
        assert forall|t: Seq<char>| #[trigger] a.tables.contains_key(t) implies a.tables[t].schema
            == c.tables[t].schema && a.tables[t].rows == c.tables[t].rows by {
            assert(b.tables.dom().contains(t));
            assert(b.tables.contains_key(t));
        }
    }
}

/// Whether an operation failed for a reason outside the store, such as a disk
/// that would not take a log record.
pub open spec fn io_failure<T>(r: Result<T, Error>) -> bool {
    r matches Err(Error::Io(_))
}

/// Whether a change from `before` to `after` with the outcome `r` is the one
/// that is wanted. An outside failure leaves no trace.
pub open spec fn changes(
    r: Result<(), Error>,
    before: StoreV,
    after: StoreV,
    wanted: Result<StoreV, ErrorV>,
) -> bool {
    if io_failure(r) {
        after == before
    } else {
        match wanted {
            Ok(s) => r is Ok && after == s,
            Err(e) => r matches Err(x) && x@ == e && after == before,
        }
    }
}

/// The same for a batch of rows.
pub open spec fn inserts(
    r: Result<(), Error>,
    before: StoreV,
    after: StoreV,
    wanted: (StoreV, Option<ErrorV>),
) -> bool {
    if io_failure(r) {
        after == before
    } else {
        &&& after == wanted.0
        &&& match wanted.1 {
            None => r is Ok,
            Some(e) => r matches Err(x) && x@ == e,
        }
    }
}

/// The rows that a filter kept.
pub open spec fn kept(rows: Seq<Seq<ValueV>>, keep: Seq<bool>, n: int) -> Seq<Seq<ValueV>>
    decreases n,
{
    if n <= 0 || n > rows.len() {
        Seq::empty()
    } else if keep[n - 1] {
        kept(rows, keep, n - 1).push(rows[n - 1])
    } else {
        kept(rows, keep, n - 1)
    }
}

/// Whether `out` holds the rows of `rows` that `filter` accepts, in order.
pub open spec fn filtered<F: Fn(&[Value]) -> bool>(
    rows: Seq<Seq<ValueV>>,
    filter: F,
    out: Seq<Seq<ValueV>>,
) -> bool {
    exists|args: Seq<&[Value]>, keep: Seq<bool>|
        #![trigger kept(rows, keep, rows.len() as int), args.len()]
        {
            &&& args.len() == rows.len()
            &&& keep.len() == rows.len()
            &&& forall|i: int|
                0 <= i < rows.len() ==> views((#[trigger] args[i])@) == rows[i] && call_ensures(
                    filter,
                    (args[i],),
                    keep[i],
                )
            &&& out == kept(rows, keep, rows.len() as int)
        }
}

/// A pluggable storage backend.
pub trait Storage: Sized {
    /// What the store holds.
    spec fn model(&self) -> StoreV;

    /// What others see of the store: without the rows that it holds back.
    spec fn committed(&self) -> StoreV;

    /// The tables whose write locks are on record as held.
    spec fn held(&self) -> NamesV;

    /// The rows that are held back until later.
    spec fn waiting(&self) -> PlacedRowsV;

    /// Whether the store is in good order.
    spec fn wf(&self) -> bool;

    /// Whether rows are held back until later rather than stored at once. A
    /// store that holds them back keeps the part of a batch that went in
    /// before a failure, and does not count them for `AUTO_INCREMENT` yet.
    spec fn buffered() -> bool;

    /// Whether nothing outside the store can make an operation fail.
    spec fn volatile() -> bool;

    /// Create a table with the given schema and optional primary-key column.
    fn create_table(
        &mut self,
        name: &str,
        columns: Vec<ColumnSchema>,
        primary_key: Option<String>,
    ) -> (r: Result<(), Error>)
        requires
            old(self).wf(),
        ensures
            final(self).wf(),
            final(self).held() == old(self).held(),
            final(self).waiting() == old(self).waiting(),
            Self::volatile() ==> !io_failure(r),
            changes(
                r,
                old(self).model(),
                final(self).model(),
                old(self).model().create_table(name@, views(columns@), opt_view(primary_key)),
            ),
            changes(
                r,
                old(self).committed(),
                final(self).committed(),
                old(self).committed().create_table(name@, views(columns@), opt_view(primary_key)),
            ),
    ;

    /// The names of all tables, in no particular order.
    fn tables(&self) -> (r: Result<Vec<String>, Error>)
        requires
            self.wf(),
        ensures
            r matches Ok(v) && lists(views(v@), self.model().tables.dom()),
    ;

    /// A table's full schema, shared rather than copied.
    fn table_schema(&self, name: &str) -> (r: Result<Arc<TableSchema>, Error>)
        requires
            self.wf(),
        ensures
            match self.model().table(name@) {
                Ok(t) => r matches Ok(s) && s@ == t.schema,
                Err(e) => r matches Err(x) && x@ == e,
            },
    ;

    /// Append a row, which must have as many values as the table has columns
    /// and a primary key that is not taken.
    fn insert_row(&mut self, table: &str, row: Vec<Value>) -> (r: Result<(), Error>)
        requires
            old(self).wf(),
        ensures
            final(self).wf(),
            final(self).held() == old(self).held(),
            final(self).waiting() == (if Self::buffered() && r is Ok {
                old(self).waiting().push(PlacedRow { table: table@, row: views(row@) })
            } else {
                old(self).waiting()
            }),
            Self::volatile() ==> !io_failure(r),
            inserts(
                r,
                old(self).model(),
                final(self).model(),
                old(self).model().insert_batch(
                    seq![PlacedRow { table: table@, row: views(row@) }],
                    Self::buffered(),
                ),
            ),
            Self::buffered() ==> final(self).committed() == old(self).committed(),
    ;

    /// Insert several `(table, row)` pairs as one unit where the engine
    /// supports it.
    fn insert_rows(&mut self, rows: Vec<(String, Vec<Value>)>) -> (r: Result<(), Error>)
        requires
            old(self).wf(),
        ensures
            final(self).wf(),
            final(self).held() == old(self).held(),
            final(self).waiting() == old(self).waiting() + (if Self::buffered() {
                placed_rows(rows@).take(old(self).model().fitting(placed_rows(rows@)))
            } else {
                Seq::empty()
            }),
            Self::volatile() ==> !io_failure(r),
            inserts(
                r,
                old(self).model(),
                final(self).model(),
                old(self).model().insert_batch(placed_rows(rows@), Self::buffered()),
            ),
            Self::buffered() ==> final(self).committed() == old(self).committed(),
    ;

    /// Every row of a table, in insertion order.
    fn scan(&self, table: &str) -> (r: Result<Vec<Vec<Value>>, Error>)
        requires
            self.wf(),
        ensures
            match self.model().table(table@) {
                Ok(t) => r matches Ok(v) && rows_view(v@) == t.rows,
                Err(e) => r matches Err(x) && x@ == e,
            },
    ;

    /// Every row of a table that `filter` accepts, without copying the
    /// others. The filter is called once per row, in order.
    fn scan_filtered<F: Fn(&[Value]) -> bool>(&self, table: &str, filter: F) -> (r: Result<
        Vec<Vec<Value>>,
        Error,
    >)
        requires
            self.wf(),
            forall|row: &[Value]| #[trigger] call_requires(filter, (row,)),
        ensures
            match self.model().table(table@) {
                Ok(t) => r matches Ok(v) && filtered(t.rows, filter, rows_view(v@)),
                Err(e) => r matches Err(x) && x@ == e,
            },
    ;

    /// The row stored under a primary-key value; `None` if there is none, or
    /// no primary key.
    fn lookup_by_primary_key(&self, table: &str, key: &Value) -> (r: Result<
        Option<Vec<Value>>,
        Error,
    >)
        requires
            self.wf(),
        ensures
            match self.model().table(table@) {
                Ok(t) => match t.lookup(key@) {
                    Some(row) => r matches Ok(Some(v)) && views(v@) == row,
                    None => r matches Ok(None),
                },
                Err(e) => r matches Err(x) && x@ == e,
            },
    ;

    /// Reserve and return the next value of a table's `AUTO_INCREMENT`
    /// column. A reserved value is never handed out again.
    fn next_auto_increment(&mut self, table: &str) -> (r: Result<i64, Error>)
        requires
            old(self).wf(),
        ensures
            final(self).wf(),
            final(self).held() == old(self).held(),
            final(self).waiting() == old(self).waiting(),
            match old(self).model().reserve(table@) {
                Ok((n, s)) => r matches Ok(v) && v == n && final(self).model() == s,
                Err(e) => r matches Err(x) && x@ == e && final(self).model() == old(self).model(),
            },
            same_but_counters(final(self).committed(), old(self).committed()),
    ;

    /// Register a database name.
    fn create_database(&mut self, name: &str, if_not_exists: bool) -> (r: Result<(), Error>)
        requires
            old(self).wf(),
        ensures
            final(self).wf(),
            final(self).held() == old(self).held(),
            final(self).waiting() == old(self).waiting(),
            Self::volatile() ==> !io_failure(r),
            changes(
                r,
                old(self).model(),
                final(self).model(),
                old(self).model().create_database(name@, if_not_exists),
            ),
            changes(
                r,
                old(self).committed(),
                final(self).committed(),
                old(self).committed().create_database(name@, if_not_exists),
            ),
    ;

    /// Unregister a database name.
    fn drop_database(&mut self, name: &str, if_exists: bool) -> (r: Result<(), Error>)
        requires
            old(self).wf(),
        ensures
            final(self).wf(),
            final(self).held() == old(self).held(),
            final(self).waiting() == old(self).waiting(),
            Self::volatile() ==> !io_failure(r),
            changes(
                r,
                old(self).model(),
                final(self).model(),
                old(self).model().drop_database(name@, if_exists),
            ),
            changes(
                r,
                old(self).committed(),
                final(self).committed(),
                old(self).committed().drop_database(name@, if_exists),
            ),
    ;

    /// The names of all registered databases, in no particular order.
    fn databases(&self) -> (r: Result<Vec<String>, Error>)
        requires
            self.wf(),
        ensures
            r matches Ok(v) && lists(views(v@), self.model().databases),
    ;
}

} // verus!
