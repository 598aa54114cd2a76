//! What transactions promise each other.
use vstd::prelude::*;

use crate::error::ErrorV;
use crate::storage::log::PlacedRow;
use crate::storage::model::{following, StoreV};
use crate::storage::transaction::{
    fits_on, lemma_counting_is_harmless, lemma_overlay_tables, overlay, rows_for,
};
use crate::storage::api::kept;
use crate::storage::value::ValueV;

verus! {

/// A transaction sees its own rows behind the committed ones, and everything
/// else as it is committed.
pub proof fn law_transaction_sees_its_own_rows(base: StoreV, pending: Seq<PlacedRow>)
    requires
        fits_on(base, pending),
    ensures
        overlay(base, pending).databases == base.databases,
        overlay(base, pending).tables.dom() == base.tables.dom(),
        forall|t: Seq<char>| #[trigger]
            base.tables.contains_key(t) ==> {
                &&& overlay(base, pending).tables[t].schema == base.tables[t].schema
                &&& overlay(base, pending).tables[t].rows == base.tables[t].rows + rows_for(
                    pending,
                    t,
                    pending.len() as int,
                )
            },
{
    lemma_overlay_tables(base, pending, pending.len() as int);
}

/// Committing puts a transaction's rows behind those of each table, in the
/// order they came, and touches nothing else but counters. Until then the
/// store below holds none of them.
pub proof fn law_commit_appends_the_rows(base: StoreV, pending: Seq<PlacedRow>, buffered: bool)
    requires
        fits_on(base, pending),
    ensures
        ({
            let (after, failure) = base.insert_batch(pending, buffered);
            &&& failure is None
            &&& after.databases == base.databases
            &&& after.tables.dom() == base.tables.dom()
            &&& forall|t: Seq<char>| #[trigger]
                base.tables.contains_key(t) ==> after.tables[t].schema == base.tables[t].schema
                    && after.tables[t].rows == base.tables[t].rows + rows_for(
                    pending,
                    t,
                    pending.len() as int,
                )
        }),
{
    let n = pending.len() as int;
    lemma_overlay_tables(base, pending, n);
    lemma_counting_is_harmless(base, pending, n);
    let counted = base.insert_each(pending, true, n).0;
    assert forall|t: Seq<char>| #[trigger] base.tables.contains_key(t) implies counted.tables[t].schema
        == base.tables[t].schema && counted.tables[t].rows == base.tables[t].rows + rows_for(
        pending,
        t,
        n,
    ) by {
        assert(counted.tables.dom().contains(t));
        assert(counted.tables.contains_key(t));
    }
}

/// Whether two stores agree on the tables that some rows go to.
pub open spec fn agree_for(a: StoreV, b: StoreV, rows: Seq<PlacedRow>) -> bool {
    forall|i: int|
        0 <= i < rows.len() ==> {
            let t = (#[trigger] rows[i]).table;
            &&& a.tables.contains_key(t) == b.tables.contains_key(t)
            &&& a.tables[t].schema == b.tables[t].schema
            &&& a.tables[t].rows == b.tables[t].rows
        }
}

proof fn lemma_agreeing_stores(a: StoreV, b: StoreV, rows: Seq<PlacedRow>, n: int)
    requires
        0 <= n <= rows.len(),
        agree_for(a, b, rows),
        a.insert_each(rows, false, n).1 is None,
    ensures
        b.insert_each(rows, false, n).1 is None,
        agree_for(a.insert_each(rows, false, n).0, b.insert_each(rows, false, n).0, rows),
    decreases n,
{
    if n > 0 {
        lemma_agreeing_stores(a, b, rows, n - 1);
        let sa = a.insert_each(rows, false, n - 1).0;
        let sb = b.insert_each(rows, false, n - 1).0;
        let p = rows[n - 1];
        assert(sa.refusal(p) is None);
        assert(sb.refusal(p) is None);
    }
}

/// While a transaction is open, others may change whatever they like but the
/// tables that it has written to (their locks keep others out). Then its rows
/// still fit, and committing them cannot fail on a conflict.
pub proof fn law_commit_cannot_conflict(base: StoreV, later: StoreV, pending: Seq<PlacedRow>)
    requires
        fits_on(base, pending),
        agree_for(base, later, pending),
    ensures
        fits_on(later, pending),
        later.insert_batch(pending, true).1 is None,
        later.insert_batch(pending, false).1 is None,
{
    lemma_agreeing_stores(base, later, pending, pending.len() as int);
    lemma_counting_is_harmless(later, pending, pending.len() as int);
}

proof fn lemma_no_rows_for(pending: Seq<PlacedRow>, t: Seq<char>, n: int)
    requires
        forall|i: int| 0 <= i < pending.len() ==> (#[trigger] pending[i]).table != t,
    ensures
        rows_for(pending, t, n) == Seq::<Seq<ValueV>>::empty(),
    decreases n,
{
    if 0 < n <= pending.len() {
        lemma_no_rows_for(pending, t, n - 1);
    }
}

/// Read committed: what others commit meanwhile is seen at once, in every
/// table that the transaction has not written to itself.
pub proof fn law_later_commits_are_seen(
    base: StoreV,
    later: StoreV,
    pending: Seq<PlacedRow>,
    t: Seq<char>,
)
    requires
        fits_on(base, pending),
        agree_for(base, later, pending),
        later.tables.contains_key(t),
        forall|i: int| 0 <= i < pending.len() ==> (#[trigger] pending[i]).table != t,
    ensures
        overlay(later, pending).tables[t].rows == later.tables[t].rows,
        overlay(later, pending).tables[t].schema == later.tables[t].schema,
{
    law_commit_cannot_conflict(base, later, pending);
    lemma_overlay_tables(later, pending, pending.len() as int);
    lemma_no_rows_for(pending, t, pending.len() as int);
    assert(later.tables[t].rows + Seq::<Seq<ValueV>>::empty() =~= later.tables[t].rows);
}

/// An `AUTO_INCREMENT` value that a transaction has reserved is used up, even
/// if the transaction is rolled back: the store below goes on behind it.
pub proof fn law_reserved_values_survive_a_rollback(
    base: StoreV,
    after: StoreV,
    pending: Seq<PlacedRow>,
    table: Seq<char>,
    n: int,
)
    requires
        fits_on(base, pending),
        fits_on(after, pending),
        overlay(base, pending).reserve(table) == Ok::<(int, StoreV), ErrorV>(
            (n, overlay(after, pending)),
        ),
    ensures
        after.reserve(table) matches Ok((m, _)) && m == following(n),
{
    lemma_overlay_tables(base, pending, pending.len() as int);
    lemma_overlay_tables(after, pending, pending.len() as int);
    assert(overlay(after, pending).tables.dom().contains(table));
    assert(after.tables.contains_key(table));
}

/// Whether a row goes to `table`.
pub open spec fn goes_to(table: Seq<char>) -> spec_fn(PlacedRow) -> bool {
    |p: PlacedRow| p.table == table
}

proof fn lemma_rows_for(pending: Seq<PlacedRow>, table: Seq<char>, n: int)
    requires
        0 <= n <= pending.len(),
    ensures
        ({
            let own = pending.take(n).filter(goes_to(table));
            let rows = rows_for(pending, table, n);
            rows.len() == own.len() && forall|i: int|
                0 <= i < own.len() ==> #[trigger] rows[i] == own[i].row
        }),
    decreases n,
{
    reveal(Seq::filter);
    if n > 0 {
        lemma_rows_for(pending, table, n - 1);
        assert(pending.take(n).drop_last() =~= pending.take(n - 1));
        assert(pending.take(n).last() == pending[n - 1]);
    }
}

/// Of the rows that wait, a table gets those that go to it, in their order.
pub proof fn law_tables_get_their_own_rows(pending: Seq<PlacedRow>, table: Seq<char>)
    ensures
        ({
            let own = pending.filter(goes_to(table));
            let rows = rows_for(pending, table, pending.len() as int);
            rows.len() == own.len() && forall|i: int|
                0 <= i < own.len() ==> #[trigger] rows[i] == own[i].row
        }),
{
    lemma_rows_for(pending, table, pending.len() as int);
    assert(pending.take(pending.len() as int) =~= pending);
}

/// The verdicts that a filter gave.
pub open spec fn verdicts(rows: Seq<Seq<ValueV>>, keep: Seq<bool>) -> Seq<(Seq<ValueV>, bool)> {
    Seq::new(rows.len(), |i: int| (rows[i], keep[i]))
}

pub open spec fn was_kept() -> spec_fn((Seq<ValueV>, bool)) -> bool {
    |x: (Seq<ValueV>, bool)| x.1
}

proof fn lemma_kept(rows: Seq<Seq<ValueV>>, keep: Seq<bool>, n: int)
    requires
        0 <= n <= rows.len(),
        keep.len() == rows.len(),
    ensures
        ({
            let some = verdicts(rows, keep).take(n).filter(was_kept());
            let out = kept(rows, keep, n);
            out.len() == some.len() && forall|i: int|
                0 <= i < some.len() ==> #[trigger] out[i] == some[i].0
        }),
    decreases n,
{
    reveal(Seq::filter);
    if n > 0 {
        lemma_kept(rows, keep, n - 1);
        let all = verdicts(rows, keep);
        assert(all.take(n).drop_last() =~= all.take(n - 1));
        assert(all.take(n).last() == (rows[n - 1], keep[n - 1]));
    }
}

/// A filtered scan returns the rows that the filter accepts, in their order.
pub proof fn law_filters_keep_what_they_accept(rows: Seq<Seq<ValueV>>, keep: Seq<bool>)
    requires
        keep.len() == rows.len(),
    ensures
        ({
            let some = verdicts(rows, keep).filter(was_kept());
            let out = kept(rows, keep, rows.len() as int);
            out.len() == some.len() && forall|i: int|
                0 <= i < some.len() ==> #[trigger] out[i] == some[i].0
        }),
{
    lemma_kept(rows, keep, rows.len() as int);
    let all = verdicts(rows, keep);
    assert(all.take(rows.len() as int) =~= all);
}

} // verus!
