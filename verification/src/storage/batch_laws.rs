//! When a batch of rows is refused.
use vstd::prelude::*;

use crate::error::ErrorV;
use crate::storage::log::PlacedRow;
use crate::storage::model::{
    cell, duplicate_key, last_with, lemma_column_from, no_such_table, wrong_count, StoreV,
};
use crate::storage::transaction::{
    fits_on, lemma_counting_is_harmless, lemma_overlay_tables, rows_for,
};
use crate::storage::transaction_laws::law_commit_appends_the_rows;
use crate::storage::value::ValueV;

verus! {

/// Whether a stored row of `p`'s table has the primary key of `p`.
pub open spec fn key_is_stored(s: StoreV, p: PlacedRow) -> bool {
    match s.tables[p.table].schema.key_place() {
        None => false,
        Some(k) => exists|j: int|
            0 <= j < s.tables[p.table].rows.len() && cell(
                #[trigger] s.tables[p.table].rows[j],
                k,
            ) == Some(p.row[k]),
    }
}

/// Whether an earlier row of the batch goes to the same table with the same
/// primary key as the row at `i`.
pub open spec fn key_came_before(s: StoreV, rows: Seq<PlacedRow>, i: int) -> bool {
    match s.tables[rows[i].table].schema.key_place() {
        None => false,
        Some(k) => exists|j: int|
            0 <= j < i && (#[trigger] rows[j]).table == rows[i].table && cell(rows[j].row, k) == Some(
                rows[i].row[k],
            ),
    }
}

/// What is wrong with the row at `i` of a batch, if anything is: its table is
/// missing, it has not one value for each column, or its primary key is
/// taken, by a stored row or by an earlier one of the batch.
pub open spec fn fault(s: StoreV, rows: Seq<PlacedRow>, i: int) -> Option<ErrorV> {
    let p = rows[i];
    if !s.tables.contains_key(p.table) {
        Some(no_such_table(p.table))
    } else if p.row.len() != s.tables[p.table].schema.columns.len() {
        Some(wrong_count(p.table, s.tables[p.table].schema.columns.len(), p.row.len()))
    } else if key_is_stored(s, p) || key_came_before(s, rows, i) {
        Some(duplicate_key(p.row[s.tables[p.table].schema.key_place()->0]))
    } else {
        None
    }
}

/// Whether the row at `i` is the first with a fault.
pub open spec fn first_fault(s: StoreV, rows: Seq<PlacedRow>, i: int) -> bool {
    &&& 0 <= i < rows.len()
    &&& fault(s, rows, i) is Some
    &&& forall|j: int| 0 <= j < i ==> #[trigger] fault(s, rows, j) is None
}

/// Whether some of the first `n` rows holds `key` in column `k`.
spec fn has_key(rows: Seq<Seq<ValueV>>, k: int, key: ValueV, n: int) -> bool {
    exists|j: int| 0 <= j < n && cell(#[trigger] rows[j], k) == Some(key)
}

proof fn lemma_last_with(rows: Seq<Seq<ValueV>>, k: int, key: ValueV, n: int)
    requires
        0 <= n <= rows.len(),
    ensures
        last_with(rows, k, key, n) is Some <==> has_key(rows, k, key, n),
    decreases n,
{
    if n > 0 {
        lemma_last_with(rows, k, key, n - 1);
        if has_key(rows, k, key, n - 1) {
            let j = choose|j: int| 0 <= j < n - 1 && cell(#[trigger] rows[j], k) == Some(key);
            assert(cell(rows[j], k) == Some(key));
        }
    }
}

/// Whether one of the first `n` rows of a batch goes to `table` with `key` in
/// column `k`.
spec fn sends_key(
    rows: Seq<PlacedRow>,
    table: Seq<char>,
    k: int,
    key: ValueV,
    n: int,
) -> bool {
    exists|j: int|
        0 <= j < n && (#[trigger] rows[j]).table == table && cell(rows[j].row, k) == Some(key)
}

proof fn lemma_rows_for(rows: Seq<PlacedRow>, table: Seq<char>, k: int, key: ValueV, n: int)
    requires
        0 <= n <= rows.len(),
    ensures
        ({
            let own = rows_for(rows, table, n);
            has_key(own, k, key, own.len() as int) <==> sends_key(rows, table, k, key, n)
        }),
    decreases n,
{
    let own = rows_for(rows, table, n);
    if n > 0 {
        lemma_rows_for(rows, table, k, key, n - 1);
        let front = rows_for(rows, table, n - 1);
        let p = rows[n - 1];
        if sends_key(rows, table, k, key, n - 1) {
            let j = choose|j: int|
                0 <= j < n - 1 && (#[trigger] rows[j]).table == table && cell(rows[j].row, k)
                    == Some(key);
            assert(rows[j].table == table);
        }
        if p.table == table {
            assert(own == front.push(p.row));
            if has_key(front, k, key, front.len() as int) {
                let j = choose|j: int|
                    0 <= j < front.len() && cell(#[trigger] front[j], k) == Some(key);
                assert(own[j] == front[j]);
            }
            if cell(p.row, k) == Some(key) {
                assert(own[front.len() as int] == p.row);
                assert(rows[n - 1].table == table);
            }
            if has_key(own, k, key, own.len() as int) {
                let j = choose|j: int|
                    0 <= j < own.len() && cell(#[trigger] own[j], k) == Some(key);
                if j < front.len() {
                    assert(front[j] == own[j]);
                }
            }
        }
    }
}

proof fn lemma_has_key_joined(a: Seq<Seq<ValueV>>, b: Seq<Seq<ValueV>>, k: int, key: ValueV)
    ensures
        has_key(a + b, k, key, (a + b).len() as int) <==> has_key(a, k, key, a.len() as int)
            || has_key(b, k, key, b.len() as int),
{
    let all = a + b;
    if has_key(a, k, key, a.len() as int) {
        let j = choose|j: int| 0 <= j < a.len() && cell(#[trigger] a[j], k) == Some(key);
        assert(all[j] == a[j]);
    }
    if has_key(b, k, key, b.len() as int) {
        let j = choose|j: int| 0 <= j < b.len() && cell(#[trigger] b[j], k) == Some(key);
        assert(all[a.len() + j] == b[j]);
    }
    if has_key(all, k, key, all.len() as int) {
        let j = choose|j: int| 0 <= j < all.len() && cell(#[trigger] all[j], k) == Some(key);
        if j < a.len() {
            assert(a[j] == all[j]);
        } else {
            assert(b[j - a.len()] == all[j]);
        }
    }
}

/// The row behind `n` that fit is refused for its fault.
proof fn lemma_next_refusal(s: StoreV, rows: Seq<PlacedRow>, n: int)
    requires
        0 <= n < rows.len(),
        s.insert_each(rows, false, n).1 is None,
    ensures
        s.insert_each(rows, false, n).0.refusal(rows[n]) == fault(s, rows, n),
{
    lemma_overlay_tables(s, rows, n);
    let mid = s.insert_each(rows, false, n).0;
    let p = rows[n];
    assert(mid.tables.dom().contains(p.table) == s.tables.dom().contains(p.table));
    if s.tables.contains_key(p.table) {
        let t = s.tables[p.table];
        let own = rows_for(rows, p.table, n);
        match t.schema.key_place() {
            None => {},
            Some(k) => {
                lemma_column_from(t.schema.columns, t.schema.primary_key->0, 0);
                if p.row.len() == t.schema.columns.len() {
                    let key = p.row[k];
                    lemma_last_with(t.rows + own, k, key, (t.rows + own).len() as int);
                    lemma_has_key_joined(t.rows, own, k, key);
                    lemma_rows_for(rows, p.table, k, key, n);
                    assert(has_key(t.rows, k, key, t.rows.len() as int) == key_is_stored(s, p));
                    assert(sends_key(rows, p.table, k, key, n) == key_came_before(s, rows, n));
                }
            },
        }
    }
}

/// The first `n` rows fit if none of them has a fault; otherwise the first
/// fault is what is reported.
proof fn lemma_faults(s: StoreV, rows: Seq<PlacedRow>, n: int)
    requires
        0 <= n <= rows.len(),
    ensures
        match s.insert_each(rows, false, n).1 {
            None => forall|i: int| 0 <= i < n ==> #[trigger] fault(s, rows, i) is None,
            Some(e) => exists|i: int| #[trigger] first_fault(s, rows, i) && i < n && fault(s, rows, i)
                == Some(e),
        },
    decreases n,
{
    if n > 0 {
        lemma_faults(s, rows, n - 1);
        match s.insert_each(rows, false, n - 1).1 {
            None => {
                lemma_next_refusal(s, rows, n - 1);
                if fault(s, rows, n - 1) is Some {
                    assert(first_fault(s, rows, n - 1));
                }
            },
            Some(e) => {
                let i = choose|i: int| #[trigger]
                    first_fault(s, rows, i) && i < n - 1 && fault(s, rows, i) == Some(e);
                assert(first_fault(s, rows, i));
            },
        }
    }
}

/// A batch is refused exactly if one of its rows has a fault: its table is
/// missing, it has not one value for each column, or its primary key equals
/// a stored one or an earlier one of the batch. The first fault is reported,
/// and the store is as it was. A batch that is not refused stands behind the
/// rows of each table, in order.
pub proof fn law_batches_are_refused_for_their_faults(s: StoreV, rows: Seq<PlacedRow>)
    ensures
        s.insert_batch(rows, false).1 is Some <==> exists|i: int|
            0 <= i < rows.len() && #[trigger] fault(s, rows, i) is Some,
        match s.insert_batch(rows, false) {
            (after, Some(e)) => after == s && exists|i: int| #[trigger]
                first_fault(s, rows, i) && fault(s, rows, i) == Some(e),
            (after, None) => {
                &&& after.databases == s.databases
                &&& after.tables.dom() == s.tables.dom()
                &&& forall|t: Seq<char>| #[trigger]
                    s.tables.contains_key(t) ==> after.tables[t].schema == s.tables[t].schema
                        && after.tables[t].rows == s.tables[t].rows + rows_for(
                        rows,
                        t,
                        rows.len() as int,
                    )
            },
        },
{
    let n = rows.len() as int;
    lemma_faults(s, rows, n);
    lemma_counting_is_harmless(s, rows, n);
    match s.insert_each(rows, false, n).1 {
        None => law_commit_appends_the_rows(s, rows, false),
        Some(e) => {
            let i = choose|i: int| #[trigger]
                first_fault(s, rows, i) && i < n && fault(s, rows, i) == Some(e);
            assert(fault(s, rows, i) is Some);
        },
    }
}

/// A transaction takes rows by the same rule, on top of those it holds back:
/// rows that go in one after the other are a batch without a fault.
pub proof fn law_waiting_rows_have_no_fault(base: StoreV, pending: Seq<PlacedRow>)
    ensures
        fits_on(base, pending) <==> forall|i: int|
            0 <= i < pending.len() ==> #[trigger] fault(base, pending, i) is None,
{
    lemma_faults(base, pending, pending.len() as int);
    if !fits_on(base, pending) {
        let e = base.insert_each(pending, false, pending.len() as int).1->0;
        let i = choose|i: int| #[trigger]
            first_fault(base, pending, i) && i < pending.len() && fault(base, pending, i) == Some(e);
        assert(fault(base, pending, i) is Some);
    }
}

} // verus!
