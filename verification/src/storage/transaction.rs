//! A connection-scoped transaction: it buffers rows until `commit`, discards
//! them on `rollback`, and remembers which tables it has locked.
//!
//! Isolation level: read committed. A transaction sees its own rows on top of
//! the latest committed state, and nobody else sees them before `commit`.
use vstd::prelude::*;
use std::sync::Arc;

use crate::error::{Error, ErrorV};
use crate::seqs::{duplicate_all, opt_view, views};
use crate::storage::api::{inserts, io_failure, same_but_counters, Storage};
use crate::storage::engine::{filter_rows, lemma_insert_each_stops};
use crate::storage::log::{placed, placed_rows, PlacedRow};
use crate::storage::model::{
    cell, following, last_with, new_table, rows_view, NamesV, PlacedRowsV, StoreV, TableV,
};
use crate::storage::table::find_column;
use crate::storage::value::{same_value, ColumnSchema, TableSchema, Value, ValueV};
use crate::text::{cat3, cat4, same_text, u64_text};

verus! {

broadcast use crate::seqs::group_views;

/// An in-progress transaction on top of a store.
#[derive(Debug)]
pub struct Transaction<S: Storage> {
    storage: S,
    /// Rows inserted by this transaction but not yet committed, in order.
    pending: Vec<(String, Vec<Value>)>,
    /// Tables this transaction holds the write lock of.
    locked: Vec<String>,
}

/// A transaction set aside between two statements, without the store, so that
/// other connections can work with that meanwhile.
#[derive(Debug)]
pub struct Suspended {
    pending: Vec<(String, Vec<Value>)>,
    locked: Vec<String>,
}

impl Suspended {
    /// The rows not yet committed.
    pub closed spec fn rows(&self) -> Seq<PlacedRow> {
        placed_rows(self.pending@)
    }

    /// The tables that the transaction holds the lock of.
    pub closed spec fn locks(&self) -> Seq<Seq<char>> {
        views(self.locked@)
    }
}

/// `base` with the rows of a transaction on top of it.
pub open spec fn overlay(base: StoreV, pending: Seq<PlacedRow>) -> StoreV {
    base.insert_each(pending, false, pending.len() as int).0
}

/// Whether a transaction's rows all fit on `base`, one after the other.
pub open spec fn fits_on(base: StoreV, pending: Seq<PlacedRow>) -> bool {
    base.insert_each(pending, false, pending.len() as int).1 is None
}

/// The rows of `pending` that go to `table`, among the first `n`.
pub open spec fn rows_for(pending: Seq<PlacedRow>, table: Seq<char>, n: int) -> Seq<Seq<ValueV>>
    decreases n,
{
    if n <= 0 || n > pending.len() {
        Seq::empty()
    } else if pending[n - 1].table == table {
        rows_for(pending, table, n - 1).push(pending[n - 1].row)
    } else {
        rows_for(pending, table, n - 1)
    }
}

// ---------- how a store and its overlay relate ----------

/// Putting rows on top changes neither the tables nor their schemas, and
/// appends each table's rows.
pub proof fn lemma_overlay_tables(base: StoreV, pending: Seq<PlacedRow>, n: int)
    requires
        0 <= n <= pending.len(),
        base.insert_each(pending, false, n).1 is None,
    ensures
        ({
            let s = base.insert_each(pending, false, n).0;
            &&& s.tables.dom() == base.tables.dom()
            &&& s.databases == base.databases
            &&& forall|t: Seq<char>| #[trigger]
                base.tables.contains_key(t) ==> s.tables[t] == (TableV {
                    rows: base.tables[t].rows + rows_for(pending, t, n),
                    ..base.tables[t]
                })
        }),
    decreases n,
{
    let s = base.insert_each(pending, false, n).0;
    if n > 0 {
        lemma_overlay_tables(base, pending, n - 1);
        let before = base.insert_each(pending, false, n - 1).0;
        let p = pending[n - 1];
        assert(before.refusal(p) is None);
        assert(s == before.with_row(p, false));
        assert(s.tables.dom() =~= base.tables.dom());
        assert forall|t: Seq<char>| #[trigger] base.tables.contains_key(t) implies s.tables[t] == (
        TableV { rows: base.tables[t].rows + rows_for(pending, t, n), ..base.tables[t] }) by {
            let old_rows = base.tables[t].rows + rows_for(pending, t, n - 1);
            if t == p.table {
                assert(old_rows.push(p.row) =~= base.tables[t].rows + rows_for(pending, t, n));
            }
        }
    } else {
        assert forall|t: Seq<char>| #[trigger] base.tables.contains_key(t) implies s.tables[t] == (
        TableV { rows: base.tables[t].rows + rows_for(pending, t, n), ..base.tables[t] }) by {
            assert(base.tables[t].rows + rows_for(pending, t, 0) =~= base.tables[t].rows);
        }
    }
}

/// A table that is not there yet can be added below or on top.
proof fn lemma_overlay_new_table(
    base: StoreV,
    pending: Seq<PlacedRow>,
    n: int,
    name: Seq<char>,
    t: TableV,
)
    requires
        0 <= n <= pending.len(),
        base.insert_each(pending, false, n).1 is None,
        !base.tables.contains_key(name),
    ensures
        base.with_table(name, t).insert_each(pending, false, n) == (
            base.insert_each(pending, false, n).0.with_table(name, t),
            None::<ErrorV>,
        ),
    decreases n,
{
    if n > 0 {
        lemma_overlay_new_table(base, pending, n - 1, name, t);
        lemma_overlay_tables(base, pending, n - 1);
        let s = base.insert_each(pending, false, n - 1).0;
        let p = pending[n - 1];
        assert(s.tables.contains_key(p.table));
        assert(p.table != name);
        let row = s.tables[p.table].with_row(p.row, false);
        assert(s.with_table(name, t).tables[p.table] == s.tables[p.table]);
        assert(s.tables.insert(name, t).insert(p.table, row) =~= s.tables.insert(
            p.table,
            row,
        ).insert(name, t));
    }
}

/// A counter can be moved below or on top.
proof fn lemma_overlay_counter(
    base: StoreV,
    pending: Seq<PlacedRow>,
    n: int,
    name: Seq<char>,
    next: Option<int>,
)
    requires
        0 <= n <= pending.len(),
        base.insert_each(pending, false, n).1 is None,
        base.tables.contains_key(name),
        next is Some == base.tables[name].next is Some,
    ensures
        ({
            let s = base.insert_each(pending, false, n).0;
            base.with_table(name, TableV { next, ..base.tables[name] }).insert_each(
                pending,
                false,
                n,
            ) == (s.with_table(name, TableV { next, ..s.tables[name] }), None::<ErrorV>)
        }),
    decreases n,
{
    if n > 0 {
        lemma_overlay_counter(base, pending, n - 1, name, next);
        lemma_overlay_tables(base, pending, n - 1);
        let s = base.insert_each(pending, false, n - 1).0;
        let moved = s.with_table(name, TableV { next, ..s.tables[name] });
        let p = pending[n - 1];
        assert(s.tables.contains_key(p.table));
        assert(s.tables.contains_key(name));
        assert(moved.tables.contains_key(p.table));
        assert(moved.tables[p.table].schema == s.tables[p.table].schema);
        assert(moved.tables[p.table].rows == s.tables[p.table].rows);
        assert(moved.refusal(p) == s.refusal(p));
        let after = s.with_row(p, false);
        assert(moved.with_row(p, false).tables =~= after.with_table(
            name,
            TableV { next, ..after.tables[name] },
        ).tables);
    }
}

/// Database names can be changed below or on top.
proof fn lemma_overlay_databases(
    base: StoreV,
    pending: Seq<PlacedRow>,
    n: int,
    databases: Set<Seq<char>>,
)
    requires
        0 <= n <= pending.len(),
        base.insert_each(pending, false, n).1 is None,
    ensures
        (StoreV { tables: base.tables, databases }).insert_each(pending, false, n) == (
            StoreV { tables: base.insert_each(pending, false, n).0.tables, databases },
            None::<ErrorV>,
        ),
    decreases n,
{
    if n > 0 {
        lemma_overlay_databases(base, pending, n - 1, databases);
    }
}

/// What is read of the first rows does not depend on the rows behind them.
pub proof fn lemma_insert_each_prefix(
    s: StoreV,
    rows: Seq<PlacedRow>,
    more: Seq<PlacedRow>,
    counted: bool,
    n: int,
)
    requires
        0 <= n <= rows.len(),
    ensures
        s.insert_each(rows + more, counted, n) == s.insert_each(rows, counted, n),
    decreases n,
{
    if n > 0 {
        lemma_insert_each_prefix(s, rows, more, counted, n - 1);
    }
}

proof fn lemma_overlay_push(base: StoreV, pending: Seq<PlacedRow>, p: PlacedRow)
    requires
        fits_on(base, pending),
        overlay(base, pending).refusal(p) is None,
    ensures
        fits_on(base, pending.push(p)),
        overlay(base, pending.push(p)) == overlay(base, pending).with_row(p, false),
{
    assert(pending.push(p) =~= pending + seq![p]);
    lemma_insert_each_prefix(base, pending, seq![p], false, pending.len() as int);
}

proof fn lemma_last_with_concat(
    a: Seq<Seq<ValueV>>,
    b: Seq<Seq<ValueV>>,
    k: int,
    key: ValueV,
    n: int,
)
    requires
        0 <= n <= a.len(),
    ensures
        last_with(a + b, k, key, n) == last_with(a, k, key, n),
    decreases n,
{
    if n > 0 {
        lemma_last_with_concat(a, b, k, key, n - 1);
    }
}

/// The row of the first `n` pending ones that would be found first from the
/// end.
spec fn last_pending(
    pending: Seq<PlacedRow>,
    table: Seq<char>,
    k: int,
    key: ValueV,
    n: int,
) -> Option<int>
    decreases n,
{
    if n <= 0 || n > pending.len() {
        None
    } else if pending[n - 1].table == table && cell(pending[n - 1].row, k) == Some(key) {
        Some(n - 1)
    } else {
        last_pending(pending, table, k, key, n - 1)
    }
}

proof fn lemma_last_pending(
    base: Seq<Seq<ValueV>>,
    pending: Seq<PlacedRow>,
    table: Seq<char>,
    k: int,
    key: ValueV,
    n: int,
)
    requires
        0 <= n <= pending.len(),
    ensures
        ({
            let rows = base + rows_for(pending, table, n);
            match last_pending(pending, table, k, key, n) {
                Some(i) => 0 <= i < n && last_with(rows, k, key, rows.len() as int) is Some
                    && rows[last_with(rows, k, key, rows.len() as int)->0] == pending[i].row,
                None => match last_with(base, k, key, base.len() as int) {
                    Some(i) => last_with(rows, k, key, rows.len() as int) == Some(i) && 0 <= i
                        < base.len() && rows[i] == base[i],
                    None => last_with(rows, k, key, rows.len() as int) is None,
                },
            }
        }),
    decreases n,
{
    let rows = base + rows_for(pending, table, n);
    lemma_last_with_place(base, k, key, base.len() as int);
    if n <= 0 {
        assert(rows =~= base);
    } else {
        lemma_last_pending(base, pending, table, k, key, n - 1);
        let front = base + rows_for(pending, table, n - 1);
        if pending[n - 1].table == table {
            let row = pending[n - 1].row;
            assert(rows =~= front + seq![row]);
            lemma_last_with_concat(front, seq![row], k, key, front.len() as int);
            lemma_last_with_place(front, k, key, front.len() as int);
        }
    }
}

proof fn lemma_last_with_place(rows: Seq<Seq<ValueV>>, k: int, key: ValueV, n: int)
    requires
        0 <= n <= rows.len(),
    ensures
        last_with(rows, k, key, n) matches Some(i) ==> 0 <= i < n,
    decreases n,
{
    if n > 0 && cell(rows[n - 1], k) != Some(key) {
        lemma_last_with_place(rows, k, key, n - 1);
    }
}

/// Counting rows as they come or later makes no difference to whether they
/// fit.
pub proof fn lemma_counting_is_harmless(s: StoreV, rows: Seq<PlacedRow>, n: int)
    requires
        0 <= n <= rows.len(),
    ensures
        s.insert_each(rows, true, n).1 == s.insert_each(rows, false, n).1,
        same_but_counters(s.insert_each(rows, true, n).0, s.insert_each(rows, false, n).0),
    decreases n,
{
    if n > 0 {
        lemma_counting_is_harmless(s, rows, n - 1);
        let a = s.insert_each(rows, true, n - 1).0;
        let b = s.insert_each(rows, false, n - 1).0;
        let p = rows[n - 1];
        lemma_same_refusal(a, b, p);
        if s.insert_each(rows, true, n - 1).1 is None && a.refusal(p) is None {
            assert(a.tables.dom() == b.tables.dom());
            assert(a.tables.contains_key(p.table));
            assert(b.tables.contains_key(p.table));
            assert(a.with_row(p, true).tables.dom() =~= b.with_row(p, false).tables.dom());
        }
    }
}

pub proof fn lemma_same_refusal(a: StoreV, b: StoreV, p: PlacedRow)
    requires
        same_but_counters(a, b),
    ensures
        a.refusal(p) == b.refusal(p),
{
    if a.tables.contains_key(p.table) {
        assert(b.tables.dom().contains(p.table));
    } else {
        assert(!b.tables.dom().contains(p.table));
    }
}

/// The rows in front of the first that is refused are those that go in.
proof fn lemma_fitting(s: StoreV, rows: Seq<PlacedRow>, i: int, n: int)
    requires
        0 <= i < n <= rows.len(),
        s.insert_each(rows, false, i).1 is None,
        s.insert_each(rows, false, i + 1).1 is Some,
    ensures
        s.fitting_of(rows, n) == i,
    decreases n,
{
    lemma_insert_each_stops(s, rows, false, i + 1, n);
    assert(s.fitting_of(rows, i) == i);
    if n > i + 1 {
        lemma_fitting(s, rows, i, n - 1);
    }
}

// ---------- transactions ----------

impl<S: Storage> Transaction<S> {
    /// The committed state below the transaction.
    pub closed spec fn base(&self) -> S {
        self.storage
    }

    /// The rows not yet committed.
    pub closed spec fn rows(&self) -> Seq<PlacedRow> {
        placed_rows(self.pending@)
    }

    /// The tables that the transaction holds the lock of.
    pub closed spec fn locks(&self) -> Seq<Seq<char>> {
        views(self.locked@)
    }

    /// A transaction on `storage` with nothing in it yet.
    pub fn new(storage: S) -> (r: Self)
        requires
            storage.wf(),
        ensures
            r.wf(),
            r.base() == storage,
            r.rows() == Seq::<PlacedRow>::empty(),
            r.locks() == Seq::<Seq<char>>::empty(),
            r.model() == storage.model(),
    {
        let t = Transaction { storage, pending: Vec::new(), locked: Vec::new() };
        proof {
            assert(t.rows() =~= Seq::empty());
            assert(t.locks() =~= Seq::empty());
        }
        t
    }

    /// Read the committed state below the transaction.
    pub fn storage(&self) -> (r: &S)
        ensures
            *r == self.base(),
    {
        &self.storage
    }

    /// Whether the lock of `table` still has to be acquired before the
    /// transaction writes to it.
    pub fn needs_lock(&self, table: &str) -> (r: bool)
        ensures
            r == !self.locks().contains(table@),
    {
        let mut i: usize = 0;
        while i < self.locked.len()
            invariant
                i <= self.locked@.len(),
                forall|j: int| 0 <= j < i ==> (#[trigger] self.locked@[j])@ != table@,
            decreases self.locked@.len() - i,
        {
            if same_text(self.locked[i].as_str(), table) {
                proof {
                    assert(self.locks()[i as int] == table@);
                }
                return false;
            }
            i = i + 1;
        }
        proof {
            if self.locks().contains(table@) {
                let j = self.locks().index_of(table@);
                assert(self.locked@[j]@ == table@);
            }
        }
        true
    }

    /// Remember that the lock of `table` is held now.
    pub fn note_locked(&mut self, table: &str)
        requires
            old(self).wf(),
        ensures
            final(self).wf(),
            final(self).base() == old(self).base(),
            final(self).rows() == old(self).rows(),
            final(self).model() == old(self).model(),
            final(self).locks() == (if old(self).locks().contains(table@) {
                old(self).locks()
            } else {
                old(self).locks().push(table@)
            }),
    {
        if self.needs_lock(table) {
            self.locked.push(table.to_string());
        }
    }

    /// Apply every buffered row to the store, as one batch, and hand the store
    /// back. It cannot fail on a conflict: each row was checked when it came.
    pub fn commit(self) -> (r: (Result<(), Error>, S))
        requires
            self.wf(),
        ensures
            r.1.wf(),
            S::volatile() ==> !io_failure(r.0),
            inserts(
                r.0,
                self.base().model(),
                r.1.model(),
                self.base().model().insert_batch(self.rows(), S::buffered()),
            ),
            io_failure(r.0) || r.0 is Ok,
            r.0 is Ok ==> same_but_counters(r.1.model(), self.model()),
    {
        let ghost base = self.storage.model();
        let ghost rows = placed_rows(self.pending@);
        proof {
            lemma_counting_is_harmless(base, rows, rows.len() as int);
            assert(same_but_counters(overlay(base, rows), overlay(base, rows)));
        }
        let mut storage = self.storage;
        let outcome = storage.insert_rows(self.pending);
        (outcome, storage)
    }

    /// Set the transaction aside and hand the store back as it is.
    pub fn suspend(self) -> (r: (S, Suspended))
        requires
            self.wf(),
        ensures
            r.0 == self.base(),
            r.0.wf(),
            r.1.rows() == self.rows(),
            r.1.locks() == self.locks(),
            fits_on(r.0.model(), r.1.rows()),
            self.model() == overlay(r.0.model(), r.1.rows()),
    {
        (self.storage, Suspended { pending: self.pending, locked: self.locked })
    }

    /// Take a transaction up again, on top of what is committed now. Its rows
    /// still fit as long as nobody has changed the tables that they go to,
    /// which is what the locks of those tables are for.
    pub fn resume(storage: S, aside: Suspended) -> (r: Self)
        requires
            storage.wf(),
            fits_on(storage.model(), aside.rows()),
        ensures
            r.wf(),
            r.base() == storage,
            r.rows() == aside.rows(),
            r.locks() == aside.locks(),
            r.model() == overlay(storage.model(), aside.rows()),
    {
        Transaction { storage, pending: aside.pending, locked: aside.locked }
    }

    /// Discard every buffered row and hand the store back as it was.
    pub fn rollback(self) -> (r: S)
        ensures
            r == self.base(),
            self.wf() ==> r.wf(),
    {
        self.storage
    }

    fn key_place(schema: &TableSchema) -> (r: Option<usize>)
        ensures
            match r {
                Some(k) => schema@.key_place() == Some(k as int) && k < schema@.columns.len(),
                None => schema@.key_place() is None,
            },
    {
        match &schema.primary_key {
            Some(pk) => find_column(schema.columns.as_slice(), pk.as_str()),
            None => None,
        }
    }
}

impl<S: Storage> Storage for Transaction<S> {
    closed spec fn model(&self) -> StoreV {
        overlay(self.storage.model(), placed_rows(self.pending@))
    }

    open spec fn committed(&self) -> StoreV {
        self.base().committed()
    }

    open spec fn held(&self) -> NamesV {
        self.locks()
    }

    open spec fn waiting(&self) -> PlacedRowsV {
        self.rows()
    }

    closed spec fn wf(&self) -> bool {
        self.storage.wf() && fits_on(self.storage.model(), placed_rows(self.pending@))
    }

    open spec fn buffered() -> bool {
        true
    }

    open spec fn volatile() -> bool {
        S::volatile()
    }

    /// Goes straight to the store: creating a table is not part of the
    /// transaction.
    fn create_table(
        &mut self,
        name: &str,
        columns: Vec<ColumnSchema>,
        primary_key: Option<String>,
    ) -> (r: Result<(), Error>) {
        let ghost base = self.storage.model();
        let ghost rows = placed_rows(self.pending@);
        proof {
            lemma_overlay_tables(base, rows, rows.len() as int);
            assert(overlay(base, rows).tables.contains_key(name@) == base.tables.contains_key(
                name@,
            )) by {
                assert(overlay(base, rows).tables.dom().contains(name@)
                    == base.tables.dom().contains(name@));
            }
            if !base.tables.contains_key(name@) {
                lemma_overlay_new_table(
                    base,
                    rows,
                    rows.len() as int,
                    name@,
                    new_table(views(columns@), opt_view(primary_key)),
                );
            }
        }
        self.storage.create_table(name, columns, primary_key)
    }

    fn tables(&self) -> (r: Result<Vec<String>, Error>) {
        proof {
            let rows = placed_rows(self.pending@);
            lemma_overlay_tables(self.storage.model(), rows, rows.len() as int);
        }
        self.storage.tables()
    }

    fn table_schema(&self, name: &str) -> (r: Result<Arc<TableSchema>, Error>) {
        proof {
            let base = self.storage.model();
            let rows = placed_rows(self.pending@);
            lemma_overlay_tables(base, rows, rows.len() as int);
            assert(overlay(base, rows).tables.dom().contains(name@) == base.tables.dom().contains(
                name@,
            ));
        }
        self.storage.table_schema(name)
    }

    fn insert_row(&mut self, table: &str, row: Vec<Value>) -> (r: Result<(), Error>)
        ensures
            !io_failure(r),
    {
        let ghost base = self.storage.model();
        let ghost rows = placed_rows(self.pending@);
        let ghost top = overlay(base, rows);
        let ghost p = PlacedRow { table: table@, row: views(row@) };
        proof {
            lemma_overlay_tables(base, rows, rows.len() as int);
            assert(top.tables.dom().contains(table@) == base.tables.dom().contains(table@));
            let one = seq![p];
            assert(top.insert_each(one, false, 1) == (match top.refusal(p) {
                Some(e) => (top, Some(e)),
                None => (top.with_row(p, false), None),
            })) by {
                assert(top.insert_each(one, false, 0) == (top, None::<ErrorV>));
            }
        }
        let schema = self.storage.table_schema(table)?;
        let width: usize = schema.columns.len();
        if row.len() != width {
            let head = cat3("Column count doesn't match value count: table '", table, "' has ");
            return Err(
                Error::Execution(
                    cat4(
                        head.as_str(),
                        u64_text(width as u64).as_str(),
                        " column(s), got ",
                        u64_text(row.len() as u64).as_str(),
                    ),
                ),
            );
        }
        match Self::key_place(&schema) {
            Some(k) => {
                let found = self.lookup_by_primary_key(table, &row[k])?;
                if found.is_some() {
                    let key = row[k].shown_text();
                    return Err(
                        Error::Execution(
                            cat3("Duplicate entry '", key.as_str(), "' for key 'PRIMARY'"),
                        ),
                    );
                }
            },
            None => {},
        }
        proof {
            lemma_overlay_push(base, rows, p);
        }
        self.pending.push((table.to_string(), row));
        proof {
            assert(placed_rows(self.pending@) =~= rows.push(p));
        }
        Ok(())
    }

    fn insert_rows(&mut self, rows: Vec<(String, Vec<Value>)>) -> (r: Result<(), Error>)
        ensures
            !io_failure(r),
    {
        let ghost all = placed_rows(rows@);
        let ghost start = self.model();
        let mut i: usize = 0;
        proof {
            assert(self.waiting() + all.take(0) =~= self.waiting());
        }
        while i < rows.len()
            invariant
                self.waiting() == old(self).waiting() + all.take(i as int),
                i <= rows@.len(),
                all == placed_rows(rows@),
                start == old(self).model(),
                self.committed() == old(self).committed(),
                self.held() == old(self).held(),
                self.wf(),
                start.insert_each(all, false, i as int) == (self.model(), None::<ErrorV>),
            decreases rows@.len() - i,
        {
            let row = duplicate_all(&rows[i].1);
            let ghost p = all[i as int];
            let ghost mid = self.model();
            proof {
                let one = seq![p];
                assert(p == placed(rows@[i as int]));
                assert(mid.insert_each(one, false, 1) == (match mid.refusal(p) {
                    Some(e) => (mid, Some(e)),
                    None => (mid.with_row(p, false), None),
                })) by {
                    assert(mid.insert_each(one, false, 0) == (mid, None::<ErrorV>));
                }
            }
            match self.insert_row(rows[i].0.as_str(), row) {
                Ok(()) => {},
                Err(e) => {
                    proof {
                        lemma_insert_each_stops(start, all, false, i + 1, all.len() as int);
                        lemma_fitting(start, all, i as int, all.len() as int);
                    }
                    return Err(e);
                },
            }
            proof {
                assert(all.take(i + 1) =~= all.take(i as int).push(p));
            }
            i = i + 1;
        }
        Ok(())
    }

    fn scan(&self, table: &str) -> (r: Result<Vec<Vec<Value>>, Error>) {
        let ghost base = self.storage.model();
        let ghost rows = placed_rows(self.pending@);
        proof {
            lemma_overlay_tables(base, rows, rows.len() as int);
            assert(overlay(base, rows).tables.dom().contains(table@) == base.tables.dom().contains(
                table@,
            ));
        }
        let mut out = self.storage.scan(table)?;
        let ghost committed = rows_view(out@);
        proof {
            assert(committed + rows_for(rows, table@, 0) =~= committed);
        }
        let mut i: usize = 0;
        while i < self.pending.len()
            invariant
                i <= self.pending@.len(),
                rows == placed_rows(self.pending@),
                rows_view(out@) == committed + rows_for(rows, table@, i as int),
            decreases self.pending@.len() - i,
        {
            proof {
                assert(rows[i as int] == placed(self.pending@[i as int]));
            }
            if same_text(self.pending[i].0.as_str(), table) {
                let copy = duplicate_all(&self.pending[i].1);
                proof {
                    assert(rows_view(out@.push(copy)) =~= rows_view(out@).push(views(copy@)));
                    assert(committed + rows_for(rows, table@, i + 1) =~= (committed + rows_for(
                        rows,
                        table@,
                        i as int,
                    )).push(views(copy@)));
                }
                out.push(copy);
            }
            i = i + 1;
        }
        Ok(out)
    }

    fn scan_filtered<F: Fn(&[Value]) -> bool>(&self, table: &str, filter: F) -> (r: Result<
        Vec<Vec<Value>>,
        Error,
    >) {
        let all = self.scan(table)?;
        Ok(filter_rows(&all, &filter))
    }

    fn lookup_by_primary_key(&self, table: &str, key: &Value) -> (r: Result<
        Option<Vec<Value>>,
        Error,
    >) {
        let ghost base = self.storage.model();
        let ghost rows = placed_rows(self.pending@);
        proof {
            lemma_overlay_tables(base, rows, rows.len() as int);
            assert(overlay(base, rows).tables.dom().contains(table@) == base.tables.dom().contains(
                table@,
            ));
        }
        let schema = self.storage.table_schema(table)?;
        let k: usize = match Self::key_place(&schema) {
            Some(k) => k,
            None => {
                return Ok(None);
            },
        };
        proof {
            lemma_last_pending(
                base.tables[table@].rows,
                rows,
                table@,
                k as int,
                key@,
                rows.len() as int,
            );
        }
        let mut n: usize = self.pending.len();
        while n > 0
            invariant
                n <= self.pending@.len(),
                rows == placed_rows(self.pending@),
                base == self.storage.model(),
                base.tables.contains_key(table@),
                self.model() == overlay(base, rows),
                overlay(base, rows).tables.contains_key(table@),
                overlay(base, rows).tables[table@] == (TableV {
                    rows: base.tables[table@].rows + rows_for(rows, table@, rows.len() as int),
                    ..base.tables[table@]
                }),
                base.tables[table@].schema.key_place() == Some(k as int),
                last_pending(rows, table@, k as int, key@, rows.len() as int) == last_pending(
                    rows,
                    table@,
                    k as int,
                    key@,
                    n as int,
                ),
                ({
                    let all = base.tables[table@].rows + rows_for(
                        rows,
                        table@,
                        rows.len() as int,
                    );
                    last_pending(rows, table@, k as int, key@, rows.len() as int) matches Some(i)
                        ==> last_with(all, k as int, key@, all.len() as int) is Some && all[
                    last_with(all, k as int, key@, all.len() as int)->0] == rows[i].row
                }),
            decreases n,
        {
            n = n - 1;
            proof {
                assert(rows[n as int] == placed(self.pending@[n as int]));
            }
            if k < self.pending[n].1.len() && same_value(&self.pending[n].1[k], key) && same_text(
                self.pending[n].0.as_str(),
                table,
            ) {
                return Ok(Some(duplicate_all(&self.pending[n].1)));
            }
        }
        self.storage.lookup_by_primary_key(table, key)
    }

    /// Goes straight to the store: a reserved value is never given back.
    fn next_auto_increment(&mut self, table: &str) -> (r: Result<i64, Error>) {
        let ghost base = self.storage.model();
        let ghost rows = placed_rows(self.pending@);
        proof {
            lemma_overlay_tables(base, rows, rows.len() as int);
            assert(overlay(base, rows).tables.dom().contains(table@) == base.tables.dom().contains(
                table@,
            ));
            if base.tables.contains_key(table@) && base.tables[table@].next is Some {
                lemma_overlay_counter(
                    base,
                    rows,
                    rows.len() as int,
                    table@,
                    Some(following(base.tables[table@].next->0)),
                );
            }
        }
        self.storage.next_auto_increment(table)
    }

    /// Goes straight to the store.
    fn create_database(&mut self, name: &str, if_not_exists: bool) -> (r: Result<(), Error>) {
        let ghost base = self.storage.model();
        let ghost rows = placed_rows(self.pending@);
        proof {
            lemma_overlay_tables(base, rows, rows.len() as int);
            lemma_overlay_databases(base, rows, rows.len() as int, base.databases.insert(name@));
        }
        self.storage.create_database(name, if_not_exists)
    }

    /// Goes straight to the store.
    fn drop_database(&mut self, name: &str, if_exists: bool) -> (r: Result<(), Error>) {
        let ghost base = self.storage.model();
        let ghost rows = placed_rows(self.pending@);
        proof {
            lemma_overlay_tables(base, rows, rows.len() as int);
            lemma_overlay_databases(base, rows, rows.len() as int, base.databases.remove(name@));
        }
        self.storage.drop_database(name, if_exists)
    }

    fn databases(&self) -> (r: Result<Vec<String>, Error>) {
        proof {
            let rows = placed_rows(self.pending@);
            lemma_overlay_tables(self.storage.model(), rows, rows.len() as int);
        }
        self.storage.databases()
    }
}

} // verus!
