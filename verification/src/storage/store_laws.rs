//! What holds of every store, whatever is done to it.
use vstd::prelude::*;

use crate::error::ErrorV;
use crate::storage::api::same_but_counters;
use crate::storage::durable::{
    compact, filled, lemma_compact_recreates, lemma_recounted, recounted, recounted_store,
};
use crate::storage::engine::lemma_insert_each_appends;
use crate::storage::log::{enc_entry, frame, replay_from, EntryV, PlacedRow};
use crate::storage::log_laws::{
    law_replay_round_trip, law_torn_tail_is_discarded, log_of, recordable,
};
use crate::storage::model::{
    auto_from, cell, counter_after, following, last_with, lemma_column_from, new_table, StoreV,
    TableV,
};
use crate::storage::value::{ColumnSchemaV, ValueV};

verus! {

/// A batch that cannot go in whole does not go in at all.
pub proof fn law_batch_is_all_or_nothing(s: StoreV, rows: Seq<PlacedRow>)
    ensures
        match s.insert_batch(rows, false) {
            (after, Some(_)) => after == s,
            (after, None) => after == s.with_rows(rows),
        },
{
    if s.insert_batch(rows, false).1 is None {
        lemma_insert_each_appends(s, rows, rows.len() as int);
        assert(rows.take(rows.len() as int) =~= rows);
    }
}

// ---------- primary keys ----------

/// Whether no two rows of a table have the same primary key.
pub open spec fn keys_differ(t: TableV) -> bool {
    match t.schema.key_place() {
        None => true,
        Some(k) => forall|i: int, j: int|
            0 <= i < j < t.rows.len() ==> cell(#[trigger] t.rows[i], k) is None || cell(
                t.rows[i],
                k,
            ) != cell(#[trigger] t.rows[j], k),
    }
}

/// Whether that holds of every table.
pub open spec fn all_keys_differ(s: StoreV) -> bool {
    forall|name: Seq<char>| #[trigger]
        s.tables.contains_key(name) ==> keys_differ(s.tables[name])
}

proof fn lemma_not_found(rows: Seq<Seq<ValueV>>, k: int, key: ValueV, n: int)
    requires
        0 <= n <= rows.len(),
        last_with(rows, k, key, n) is None,
    ensures
        forall|i: int| 0 <= i < n ==> cell(#[trigger] rows[i], k) != Some(key),
    decreases n,
{
    if n > 0 {
        lemma_not_found(rows, k, key, n - 1);
    }
}

proof fn lemma_row_keeps_keys(s: StoreV, p: PlacedRow, counted: bool)
    requires
        all_keys_differ(s),
        s.refusal(p) is None,
    ensures
        all_keys_differ(s.with_row(p, counted)),
{
    let t = s.tables[p.table];
    let after = t.with_row(p.row, counted);
    assert(keys_differ(t));
    match t.schema.key_place() {
        None => {},
        Some(k) => {
            lemma_column_from(t.schema.columns, t.schema.primary_key->0, 0);
            lemma_not_found(t.rows, k, p.row[k], t.rows.len() as int);
            assert(keys_differ(after)) by {
                assert forall|i: int, j: int| 0 <= i < j < after.rows.len() implies cell(
                    #[trigger] after.rows[i],
                    k,
                ) is None || cell(after.rows[i], k) != cell(#[trigger] after.rows[j], k) by {
                    assert(after.rows[i] == t.rows[i]);
                    if j < t.rows.len() {
                        assert(after.rows[j] == t.rows[j]);
                    }
                }
            }
        },
    }
    assert forall|name: Seq<char>| #[trigger]
        s.with_row(p, counted).tables.contains_key(name) implies keys_differ(
        s.with_row(p, counted).tables[name],
    ) by {
        if name != p.table {
            assert(s.tables.contains_key(name));
        }
    }
}

/// Inserting rows never gives two rows of a table the same primary key.
pub proof fn law_inserts_keep_keys_apart(s: StoreV, rows: Seq<PlacedRow>, counted: bool, n: int)
    requires
        all_keys_differ(s),
    ensures
        all_keys_differ(s.insert_each(rows, counted, n).0),
    decreases n,
{
    if 0 < n <= rows.len() {
        law_inserts_keep_keys_apart(s, rows, counted, n - 1);
        let (before, failure) = s.insert_each(rows, counted, n - 1);
        if failure is None && before.refusal(rows[n - 1]) is None {
            lemma_row_keeps_keys(before, rows[n - 1], counted);
        }
    }
}

/// Neither does anything else that is done to a store.
pub proof fn law_other_changes_keep_keys_apart(
    s: StoreV,
    name: Seq<char>,
    columns: Seq<ColumnSchemaV>,
    primary_key: Option<Seq<char>>,
    flag: bool,
)
    requires
        all_keys_differ(s),
    ensures
        s.create_table(name, columns, primary_key) matches Ok(t) ==> all_keys_differ(t),
        s.reserve(name) matches Ok((_, t)) ==> all_keys_differ(t),
        s.create_database(name, flag) matches Ok(t) ==> all_keys_differ(t),
        s.drop_database(name, flag) matches Ok(t) ==> all_keys_differ(t),
{
    match s.create_table(name, columns, primary_key) {
        Ok(t) => {
            assert forall|x: Seq<char>| #[trigger] t.tables.contains_key(x) implies keys_differ(
                t.tables[x],
            ) by {
                if x != name {
                    assert(s.tables.contains_key(x));
                }
            }
        },
        Err(_) => {},
    }
    match s.reserve(name) {
        Ok((_, t)) => {
            assert(keys_differ(s.tables[name]));
            assert forall|x: Seq<char>| #[trigger] t.tables.contains_key(x) implies keys_differ(
                t.tables[x],
            ) by {
                if x != name {
                    assert(s.tables.contains_key(x));
                }
            }
        },
        Err(_) => {},
    }
    assert forall|t: StoreV| t.tables == s.tables implies #[trigger] all_keys_differ(t) by {
        assert forall|x: Seq<char>| #[trigger] t.tables.contains_key(x) implies keys_differ(
            t.tables[x],
        ) by {
            assert(s.tables.contains_key(x));
        }
    }
}

// ---------- AUTO_INCREMENT ----------

/// Whether a value is no number, or one below `n`.
pub open spec fn below(v: Option<ValueV>, n: int) -> bool {
    match v {
        Some(ValueV::Int(x)) => x < n,
        _ => true,
    }
}

/// Whether a table's counter is past every number in its counted column, as
/// far as the counter's range goes.
pub open spec fn counter_ahead(t: TableV) -> bool {
    match (t.schema.auto_place(), t.next) {
        (Some(k), Some(n)) => n == i64::MAX || forall|i: int|
            0 <= i < t.rows.len() ==> below(cell(#[trigger] t.rows[i], k), n),
        (Some(_), None) => false,
        _ => true,
    }
}

/// Whether that holds of every table.
pub open spec fn counters_ahead(s: StoreV) -> bool {
    forall|name: Seq<char>| #[trigger]
        s.tables.contains_key(name) ==> counter_ahead(s.tables[name])
}

proof fn lemma_row_keeps_counter(t: TableV, row: Seq<ValueV>)
    requires
        counter_ahead(t),
        t.next matches Some(n) ==> 1 <= n <= i64::MAX,
    ensures
        counter_ahead(t.with_row(row, true)),
        t.with_row(row, true).next matches Some(n) ==> 1 <= n <= i64::MAX,
{
    let after = t.with_row(row, true);
    match (t.schema.auto_place(), t.next) {
        (Some(k), Some(n)) => {
            let m = counter_after(n, cell(row, k));
            assert(after.next == Some(m));
            assert(m >= n);
            if m != i64::MAX {
                assert forall|i: int| 0 <= i < after.rows.len() implies below(
                    cell(#[trigger] after.rows[i], k),
                    m,
                ) by {
                    if i < t.rows.len() {
                        assert(after.rows[i] == t.rows[i]);
                        assert(below(cell(t.rows[i], k), n));
                    } else {
                        assert(after.rows[i] == row);
                    }
                }
            }
        },
        _ => {},
    }
}

/// Whether every counter is within its range.
pub open spec fn counters_in_range(s: StoreV) -> bool {
    forall|name: Seq<char>| #[trigger]
        s.tables.contains_key(name) ==> (s.tables[name].next matches Some(n) ==> 1 <= n <= i64::MAX)
}

/// Inserted rows, whatever numbers they bring, leave every counter ahead.
pub proof fn law_inserts_keep_counters_ahead(s: StoreV, rows: Seq<PlacedRow>, n: int)
    requires
        counters_ahead(s),
        counters_in_range(s),
    ensures
        counters_ahead(s.insert_each(rows, true, n).0),
        counters_in_range(s.insert_each(rows, true, n).0),
    decreases n,
{
    if 0 < n <= rows.len() {
        law_inserts_keep_counters_ahead(s, rows, n - 1);
        let (before, failure) = s.insert_each(rows, true, n - 1);
        let p = rows[n - 1];
        if failure is None && before.refusal(p) is None {
            let after = before.with_row(p, true);
            assert(before.tables.contains_key(p.table));
            lemma_row_keeps_counter(before.tables[p.table], p.row);
            assert forall|x: Seq<char>| #[trigger] after.tables.contains_key(x) implies counter_ahead(
                after.tables[x],
            ) && (after.tables[x].next matches Some(n) ==> 1 <= n <= i64::MAX) by {
                if x != p.table {
                    assert(before.tables.contains_key(x));
                }
            }
        }
    }
}

/// A reserved value is not in the table, as long as the counter has not
/// reached the end of its range; and the counter stays ahead.
pub proof fn law_reserved_value_is_new(s: StoreV, table: Seq<char>)
    requires
        counters_ahead(s),
        counters_in_range(s),
    ensures
        s.reserve(table) matches Ok((n, after)) ==> {
            &&& counters_ahead(after)
            &&& counters_in_range(after)
            &&& n < i64::MAX && s.tables[table].schema.auto_place() is Some ==> forall|i: int|
                0 <= i < s.tables[table].rows.len() ==> cell(
                    #[trigger] s.tables[table].rows[i],
                    s.tables[table].schema.auto_place()->0,
                ) != Some(ValueV::Int(n as i64))
            &&& n < i64::MAX ==> (after.reserve(table) matches Ok((m, _)) && m == n + 1)
        },
{
    match s.reserve(table) {
        Ok((n, after)) => {
            let t = s.tables[table];
            assert(counter_ahead(t));
            assert(t.next matches Some(x) ==> 1 <= x <= i64::MAX);
            if n < i64::MAX && t.schema.auto_place() is Some {
                let k = t.schema.auto_place()->0;
                assert forall|i: int| 0 <= i < t.rows.len() implies cell(#[trigger] t.rows[i], k)
                    != Some(ValueV::Int(n as i64)) by {
                    if cell(t.rows[i], k) == Some(ValueV::Int(n as i64)) {
                        assert((n as i64) < n);
                    }
                }
            }
            assert forall|x: Seq<char>| #[trigger] after.tables.contains_key(x) implies counter_ahead(
                after.tables[x],
            ) && (after.tables[x].next matches Some(n) ==> 1 <= n <= i64::MAX) by {
                if x != table {
                    assert(s.tables.contains_key(x));
                } else {
                    let u = after.tables[x];
                    assert(u.rows == t.rows && u.schema == t.schema);
                    assert(u.next == Some(following(n)));
                    match t.schema.auto_place() {
                        Some(k) => {
                            if following(n) != i64::MAX {
                                assert forall|i: int| 0 <= i < u.rows.len() implies below(
                                    cell(#[trigger] u.rows[i], k),
                                    following(n),
                                ) by {
                                    assert(below(cell(t.rows[i], k), n));
                                }
                            }
                        },
                        None => {},
                    }
                }
            }
        },
        Err(_) => {},
    }
}

/// A new table's counter is ahead.
pub proof fn law_new_tables_count_from_one(
    s: StoreV,
    name: Seq<char>,
    columns: Seq<ColumnSchemaV>,
    primary_key: Option<Seq<char>>,
)
    requires
        counters_ahead(s),
        counters_in_range(s),
    ensures
        s.create_table(name, columns, primary_key) matches Ok(after) ==> {
            &&& counters_ahead(after)
            &&& counters_in_range(after)
            &&& auto_from(columns, 0) is Some ==> (after.reserve(name) matches Ok((n, _)) && n == 1)
        },
{
    match s.create_table(name, columns, primary_key) {
        Ok(after) => {
            assert forall|x: Seq<char>| #[trigger] after.tables.contains_key(x) implies counter_ahead(
                after.tables[x],
            ) && (after.tables[x].next matches Some(n) ==> 1 <= n <= i64::MAX) by {
                if x != name {
                    assert(s.tables.contains_key(x));
                }
            }
        },
        Err(_) => {},
    }
}

// ---------- the log ----------

/// Whether every counter is what the rows make it.
pub open spec fn counted(s: StoreV) -> bool {
    forall|name: Seq<char>| #[trigger]
        s.tables.contains_key(name) ==> recounted(s.tables[name]) == s.tables[name]
}

proof fn lemma_counted_row(s: StoreV, p: PlacedRow)
    requires
        counted(s),
    ensures
        counted(s.with_row(p, true)),
{
    if s.tables.contains_key(p.table) {
        let t = s.tables[p.table];
        let u = t.with_row(p.row, true);
        assert(recounted(t) == t);
        assert(u.rows.drop_last() =~= t.rows);
        assert(u.rows.last() == p.row);
        assert(recounted(u) == u);
        let after = s.with_row(p, true);
        assert forall|x: Seq<char>| #[trigger] after.tables.contains_key(x) implies recounted(
            after.tables[x],
        ) == after.tables[x] by {
            if x != p.table {
                assert(s.tables.contains_key(x));
            }
        }
    }
}

proof fn lemma_counted_rows(s: StoreV, rows: Seq<PlacedRow>)
    requires
        counted(s),
    ensures
        counted(s.with_rows(rows)),
    decreases rows.len(),
{
    if rows.len() > 0 {
        lemma_counted_rows(s, rows.drop_last());
        lemma_counted_row(s.with_rows(rows.drop_last()), rows.last());
    }
}

proof fn lemma_counted_apply(s: StoreV, e: EntryV)
    requires
        counted(s),
    ensures
        counted(s.apply(e)),
{
    let after = s.apply(e);
    match e {
        EntryV::InsertRow { placed } => lemma_counted_row(s, placed),
        EntryV::Transaction { rows } => lemma_counted_rows(s, rows),
        EntryV::CreateTable { table, columns, primary_key } => {
            let t = new_table(columns, primary_key);
            assert(filled(t, t.rows) == t);
            assert forall|x: Seq<char>| #[trigger] after.tables.contains_key(x) implies recounted(
                after.tables[x],
            ) == after.tables[x] by {
                if x != table {
                    assert(s.tables.contains_key(x));
                }
            }
        },
        _ => {
            assert forall|x: Seq<char>| #[trigger] after.tables.contains_key(x) implies recounted(
                after.tables[x],
            ) == after.tables[x] by {
                assert(s.tables.contains_key(x));
            }
        },
    }
}

proof fn lemma_counted_apply_all(s: StoreV, es: Seq<EntryV>)
    requires
        counted(s),
    ensures
        counted(s.apply_all(es)),
    decreases es.len(),
{
    if es.len() > 0 {
        lemma_counted_apply_all(s, es.drop_last());
        lemma_counted_apply(s.apply_all(es.drop_last()), es.last());
    }
}

/// A checkpoint of a store that was just replayed recreates it exactly, its
/// counters too.
pub proof fn law_checkpoint_recreates_the_store(es: Seq<EntryV>, short: Seq<EntryV>)
    requires
        compact(short, StoreV::empty().apply_all(es)),
    ensures
        StoreV::empty().apply_all(short) == StoreV::empty().apply_all(es),
{
    lemma_compact_recreates(short, StoreV::empty().apply_all(es));
    let s = StoreV::empty().apply_all(es);
    lemma_counted_apply_all(StoreV::empty(), es);
    assert(recounted_store(s).tables =~= s.tables) by {
        assert forall|x: Seq<char>| recounted_store(s).tables.contains_key(x) implies recounted_store(
            s,
        ).tables[x] == s.tables[x] by {
            assert(s.tables.contains_key(x));
        }
    }
}

/// A checkpoint of any store keeps its tables, rows and databases.
pub proof fn law_checkpoint_keeps_all_rows(s: StoreV, short: Seq<EntryV>)
    requires
        compact(short, s),
    ensures
        same_but_counters(StoreV::empty().apply_all(short), s),
{
    lemma_compact_recreates(short, s);
    let r = recounted_store(s);
    assert(r.tables.dom() =~= s.tables.dom());
    assert forall|t: Seq<char>| #[trigger] r.tables.contains_key(t) implies r.tables[t].schema
        == s.tables[t].schema && r.tables[t].rows == s.tables[t].rows by {
        lemma_recounted(s.tables[t]);
    }
}

/// Restoring a checkpoint gives back the store that it was taken of: all of
/// its log is good, and the tables, rows and databases are the same. If the
/// store itself was replayed from a log, its counters are the same too.
pub proof fn law_restored_checkpoint_is_the_store(s: StoreV, short: Seq<EntryV>)
    requires
        compact(short, s),
        forall|i: int| 0 <= i < short.len() ==> recordable(#[trigger] short[i]),
    ensures
        replay_from(log_of(short), 0) == Ok::<(Seq<EntryV>, int), ErrorV>(
            (short, log_of(short).len() as int),
        ),
        same_but_counters(StoreV::empty().apply_all(short), s),
        forall|es: Seq<EntryV>|
            s == #[trigger] StoreV::empty().apply_all(es) ==> StoreV::empty().apply_all(short) == s,
{
    law_replay_round_trip(short);
    law_checkpoint_keeps_all_rows(s, short);
    assert forall|es: Seq<EntryV>|
        s == #[trigger] StoreV::empty().apply_all(es) implies StoreV::empty().apply_all(short)
        == s by {
        law_checkpoint_recreates_the_store(es, short);
    }
}

/// The counters of a replayed store are ahead of every row.
pub proof fn law_replayed_counters_are_ahead(es: Seq<EntryV>)
    ensures
        counters_ahead(StoreV::empty().apply_all(es)),
        counters_in_range(StoreV::empty().apply_all(es)),
{
    let s = StoreV::empty().apply_all(es);
    lemma_counted_apply_all(StoreV::empty(), es);
    assert forall|x: Seq<char>| #[trigger] s.tables.contains_key(x) implies counter_ahead(
        s.tables[x],
    ) && (s.tables[x].next matches Some(n) ==> 1 <= n <= i64::MAX) by {
        let t = s.tables[x];
        lemma_filled_ahead(new_table(t.schema.columns, t.schema.primary_key), t.rows);
    }
}

proof fn lemma_filled_ahead(t: TableV, rows: Seq<Seq<ValueV>>)
    requires
        counter_ahead(t),
        t.next matches Some(n) ==> 1 <= n <= i64::MAX,
    ensures
        counter_ahead(filled(t, rows)),
        filled(t, rows).next matches Some(n) ==> 1 <= n <= i64::MAX,
    decreases rows.len(),
{
    if rows.len() > 0 {
        lemma_filled_ahead(t, rows.drop_last());
        lemma_row_keeps_counter(filled(t, rows.drop_last()), rows.last());
    }
}

proof fn lemma_same_row(a: StoreV, b: StoreV, p: PlacedRow)
    requires
        same_but_counters(a, b),
    ensures
        same_but_counters(a.with_row(p, true), b.with_row(p, true)),
{
    assert(a.tables.dom().contains(p.table) == b.tables.dom().contains(p.table));
    let c = a.with_row(p, true);
    let d = b.with_row(p, true);
    assert(c.tables.dom() =~= d.tables.dom());
    assert forall|t: Seq<char>| #[trigger] c.tables.contains_key(t) implies c.tables[t].schema
        == d.tables[t].schema && c.tables[t].rows == d.tables[t].rows by {
        assert(a.tables.contains_key(t));
    }
}

proof fn lemma_same_rows(a: StoreV, b: StoreV, rows: Seq<PlacedRow>)
    requires
        same_but_counters(a, b),
    ensures
        same_but_counters(a.with_rows(rows), b.with_rows(rows)),
    decreases rows.len(),
{
    if rows.len() > 0 {
        lemma_same_rows(a, b, rows.drop_last());
        lemma_same_row(a.with_rows(rows.drop_last()), b.with_rows(rows.drop_last()), rows.last());
    }
}

/// A live store and the one that its log would rebuild stay in step: logged
/// changes are the same on both, and what is not logged (a reserved value)
/// touches nothing but a counter.
pub proof fn law_log_keeps_pace(live: StoreV, rebuilt: StoreV, e: EntryV, table: Seq<char>)
    requires
        same_but_counters(live, rebuilt),
    ensures
        same_but_counters(live.apply(e), rebuilt.apply(e)),
        live.reserve(table) matches Ok((_, after)) ==> same_but_counters(after, rebuilt),
{
    match e {
        EntryV::InsertRow { placed } => lemma_same_row(live, rebuilt, placed),
        EntryV::Transaction { rows } => lemma_same_rows(live, rebuilt, rows),
        _ => {
            let c = live.apply(e);
            let d = rebuilt.apply(e);
            assert(c.tables.dom() =~= d.tables.dom());
            assert forall|t: Seq<char>| #[trigger] c.tables.contains_key(t) implies c.tables[t].schema
                == d.tables[t].schema && c.tables[t].rows == d.tables[t].rows by {
                if live.tables.contains_key(t) {
                }
            }
        },
    }
    match live.reserve(table) {
        Ok((_, after)) => {
            assert(live.tables.contains_key(table));
            assert(after.tables.dom() =~= live.tables.dom());
            assert forall|t: Seq<char>| #[trigger] after.tables.contains_key(t) implies after.tables[t].schema
                == rebuilt.tables[t].schema && after.tables[t].rows == rebuilt.tables[t].rows by {
                assert(live.tables.contains_key(t));
            }
        },
        Err(_) => {},
    }
}

// ---------- restarts ----------

/// Something that happens to a live store: a change that is logged, or a value
/// that is reserved.
pub ghost enum StepV {
    Logged(EntryV),
    Reserved(Seq<char>),
}

/// The store after the first `n` steps, from an empty one.
pub open spec fn lived(steps: Seq<StepV>, n: int) -> StoreV
    decreases n,
{
    if n <= 0 || n > steps.len() {
        StoreV::empty()
    } else {
        let before = lived(steps, n - 1);
        match steps[n - 1] {
            StepV::Logged(e) => before.apply(e),
            StepV::Reserved(table) => match before.reserve(table) {
                Ok((_, after)) => after,
                Err(_) => before,
            },
        }
    }
}

/// What the first `n` steps leave in the log.
pub open spec fn logged(steps: Seq<StepV>, n: int) -> Seq<EntryV>
    decreases n,
{
    if n <= 0 || n > steps.len() {
        Seq::empty()
    } else {
        match steps[n - 1] {
            StepV::Logged(e) => logged(steps, n - 1).push(e),
            StepV::Reserved(_) => logged(steps, n - 1),
        }
    }
}

proof fn lemma_lived_and_logged(steps: Seq<StepV>, n: int)
    requires
        0 <= n <= steps.len(),
        forall|i: int|
            0 <= i < steps.len() ==> ((#[trigger] steps[i]) matches StepV::Logged(e) ==> recordable(
                e,
            )),
    ensures
        same_but_counters(lived(steps, n), StoreV::empty().apply_all(logged(steps, n))),
        forall|i: int|
            0 <= i < logged(steps, n).len() ==> recordable(#[trigger] logged(steps, n)[i]),
    decreases n,
{
    if n > 0 {
        lemma_lived_and_logged(steps, n - 1);
        let es = logged(steps, n - 1);
        let live = lived(steps, n - 1);
        let rebuilt = StoreV::empty().apply_all(es);
        match steps[n - 1] {
            StepV::Logged(e) => {
                law_log_keeps_pace(live, rebuilt, e, Seq::empty());
                assert(es.push(e).drop_last() =~= es);
            },
            StepV::Reserved(table) => {
                law_log_keeps_pace(live, rebuilt, EntryV::DropDatabase { name: table }, table);
            },
        }
    }
}

/// What was written before a restart is there after it: whatever has happened
/// to a store, its log replays to the same tables, rows and databases, even if
/// the last write was cut short.
pub proof fn law_data_survives_a_restart(steps: Seq<StepV>, last: EntryV, cut: int)
    requires
        forall|i: int|
            0 <= i < steps.len() ==> ((#[trigger] steps[i]) matches StepV::Logged(e) ==> recordable(
                e,
            )),
        recordable(last),
        0 <= cut < frame(enc_entry(last)).len(),
    ensures
        ({
            let log = log_of(logged(steps, steps.len() as int));
            let live = lived(steps, steps.len() as int);
            &&& replay_from(log, 0) matches Ok((es, good)) && good == log.len()
                && same_but_counters(live, StoreV::empty().apply_all(es))
            &&& replay_from(log + frame(enc_entry(last)).take(cut), 0) matches Ok((es, good))
                && good == log.len() && same_but_counters(live, StoreV::empty().apply_all(es))
        }),
{
    lemma_lived_and_logged(steps, steps.len() as int);
    law_replay_round_trip(logged(steps, steps.len() as int));
    law_torn_tail_is_discarded(logged(steps, steps.len() as int), last, cut);
}

// ---------- reserved values over time ----------

/// Whether no step creates a table that is there already.
pub open spec fn creates_new_tables(steps: Seq<StepV>) -> bool {
    forall|i: int|
        0 <= i < steps.len() ==> ((#[trigger] steps[i]) matches StepV::Logged(
            EntryV::CreateTable { table, .. },
        ) ==> !lived(steps, i).tables.contains_key(table))
}

/// Whether a table has a counter exactly if it has a column for one, and the
/// counter is ahead and within its range.
spec fn counts_well(t: TableV) -> bool {
    &&& t.next is Some == t.schema.auto_place() is Some
    &&& counter_ahead(t)
    &&& t.next matches Some(n) ==> 1 <= n <= i64::MAX
}

/// Whether that holds of every table.
spec fn all_count_well(s: StoreV) -> bool {
    forall|x: Seq<char>| #[trigger] s.tables.contains_key(x) ==> counts_well(s.tables[x])
}

/// Whether `later` still has the table, with a counter that has not gone back.
spec fn goes_on_counting(before: StoreV, later: StoreV, table: Seq<char>) -> bool {
    before.tables.contains_key(table) ==> {
        &&& later.tables.contains_key(table)
        &&& later.tables[table].schema == before.tables[table].schema
        &&& match (before.tables[table].next, later.tables[table].next) {
            (Some(n), Some(m)) => n <= m,
            (None, None) => true,
            _ => false,
        }
    }
}

proof fn lemma_row_counts_well(s: StoreV, p: PlacedRow, table: Seq<char>)
    requires
        all_count_well(s),
    ensures
        all_count_well(s.with_row(p, true)),
        goes_on_counting(s, s.with_row(p, true), table),
{
    let after = s.with_row(p, true);
    if s.tables.contains_key(p.table) {
        lemma_row_keeps_counter(s.tables[p.table], p.row);
        assert forall|x: Seq<char>| #[trigger] after.tables.contains_key(x) implies counts_well(
            after.tables[x],
        ) by {
            if x != p.table {
                assert(s.tables.contains_key(x));
            }
        }
    }
}

proof fn lemma_rows_count_well(s: StoreV, rows: Seq<PlacedRow>, table: Seq<char>)
    requires
        all_count_well(s),
    ensures
        all_count_well(s.with_rows(rows)),
        goes_on_counting(s, s.with_rows(rows), table),
    decreases rows.len(),
{
    if rows.len() > 0 {
        lemma_rows_count_well(s, rows.drop_last(), table);
        lemma_row_counts_well(s.with_rows(rows.drop_last()), rows.last(), table);
    }
}

proof fn lemma_step_counts_well(steps: Seq<StepV>, n: int, table: Seq<char>)
    requires
        creates_new_tables(steps),
        0 <= n < steps.len(),
        all_count_well(lived(steps, n)),
    ensures
        all_count_well(lived(steps, n + 1)),
        goes_on_counting(lived(steps, n), lived(steps, n + 1), table),
{
    let before = lived(steps, n);
    let after = lived(steps, n + 1);
    match steps[n] {
        StepV::Logged(EntryV::InsertRow { placed }) => lemma_row_counts_well(before, placed, table),
        StepV::Logged(EntryV::Transaction { rows }) => lemma_rows_count_well(before, rows, table),
        StepV::Logged(e) => {
            assert(after == before.apply(e));
            assert forall|x: Seq<char>| #[trigger] after.tables.contains_key(x) implies counts_well(
                after.tables[x],
            ) by {
                if before.tables.contains_key(x) {
                    assert(counts_well(before.tables[x]));
                }
            }
        },
        StepV::Reserved(t) => {
            assert(counters_ahead(before) && counters_in_range(before)) by {
                assert forall|x: Seq<char>| #[trigger]
                    before.tables.contains_key(x) implies counter_ahead(before.tables[x]) && (
                before.tables[x].next matches Some(n) ==> 1 <= n <= i64::MAX) by {
                    assert(counts_well(before.tables[x]));
                }
            }
            law_reserved_value_is_new(before, t);
            match before.reserve(t) {
                Ok((m, next)) => {
                    assert(counts_well(before.tables[t]));
                    assert forall|x: Seq<char>| #[trigger]
                        next.tables.contains_key(x) implies counts_well(next.tables[x]) by {
                        assert(counter_ahead(next.tables[x]));
                    }
                },
                Err(_) => {},
            }
        },
    }
}

proof fn lemma_life_counts_well(steps: Seq<StepV>, i: int, j: int, table: Seq<char>)
    requires
        creates_new_tables(steps),
        0 <= i <= j <= steps.len(),
    ensures
        all_count_well(lived(steps, i)),
        all_count_well(lived(steps, j)),
        goes_on_counting(lived(steps, i), lived(steps, j), table),
    decreases j,
{
    if j > 0 {
        if i < j {
            lemma_life_counts_well(steps, i, j - 1, table);
            lemma_step_counts_well(steps, j - 1, table);
        } else {
            lemma_life_counts_well(steps, j - 1, j - 1, table);
            lemma_step_counts_well(steps, j - 1, table);
        }
    }
}

/// Over the whole life of a store, every value that is reserved of a table is
/// at least 1, greater than every number in the table's counted column, and
/// greater than every value that was reserved of it before, as long as the
/// values stay below the end of their range.
pub proof fn law_reserved_values_only_grow(
    steps: Seq<StepV>,
    table: Seq<char>,
    earlier: int,
    later: int,
)
    requires
        creates_new_tables(steps),
        0 <= earlier < later <= steps.len(),
        steps[earlier] == StepV::Reserved(table),
        lived(steps, earlier).reserve(table) is Ok,
    ensures
        lived(steps, later).reserve(table) matches Ok((m, _)) && {
            let n = lived(steps, earlier).reserve(table)->Ok_0.0;
            let t = lived(steps, later).tables[table];
            &&& 1 <= n <= m <= i64::MAX
            &&& n < i64::MAX ==> n < m
            &&& t.schema.auto_place() is Some
            &&& m < i64::MAX ==> forall|i: int|
                0 <= i < t.rows.len() ==> below(
                    cell(#[trigger] t.rows[i], t.schema.auto_place()->0),
                    m,
                )
        },
{
    lemma_life_counts_well(steps, earlier, later, table);
    lemma_life_counts_well(steps, earlier + 1, later, table);
    assert(counts_well(lived(steps, earlier).tables[table]));
    assert(lived(steps, later).tables.contains_key(table));
    assert(counts_well(lived(steps, later).tables[table]));
}

/// Whatever has happened to a store, a value that is reserved of a table is at
/// least 1, and greater than every number in the table's counted column as
/// long as it is below the end of its range.
pub proof fn law_reserved_values_are_past_the_rows(steps: Seq<StepV>, table: Seq<char>, at: int)
    requires
        creates_new_tables(steps),
        0 <= at <= steps.len(),
        lived(steps, at).reserve(table) is Ok,
    ensures
        ({
            let n = lived(steps, at).reserve(table)->Ok_0.0;
            let t = lived(steps, at).tables[table];
            &&& 1 <= n <= i64::MAX
            &&& t.schema.auto_place() is Some
            &&& n < i64::MAX ==> forall|i: int|
                0 <= i < t.rows.len() ==> below(
                    cell(#[trigger] t.rows[i], t.schema.auto_place()->0),
                    n,
                )
        }),
{
    lemma_life_counts_well(steps, at, at, table);
    assert(counts_well(lived(steps, at).tables[table]));
}

/// A row with a number of its own moves the counter past that number, and
/// never back.
pub proof fn law_explicit_values_move_the_counter(s: StoreV, p: PlacedRow, value: i64)
    requires
        s.reserve(p.table) is Ok,
        s.tables[p.table].schema.auto_place() is Some,
        cell(p.row, s.tables[p.table].schema.auto_place()->0) == Some(ValueV::Int(value)),
        s.refusal(p) is None,
    ensures
        ({
            let n = s.reserve(p.table)->Ok_0.0;
            let next = s.insert_batch(seq![p], false).0.reserve(p.table);
            next matches Ok((m, _)) && m == (if n <= following(value as int) {
                following(value as int)
            } else {
                n
            })
        }),
{
    let one = seq![p];
    assert(s.insert_each(one, true, 0) == (s, None::<ErrorV>));
    assert(s.insert_each(one, true, 1) == (s.with_row(p, true), None::<ErrorV>));
}

/// A row moves a counter just as far as it has to: past the row's number if
/// that is not below it, and otherwise not at all.
pub proof fn law_counters_move_no_further_than_needed(t: TableV, row: Seq<ValueV>)
    requires
        t.next is Some,
        t.schema.auto_place() is Some,
        t.next->0 <= i64::MAX,
    ensures
        ({
            let k = t.schema.auto_place()->0;
            let before = t.next->0;
            let after = t.with_row(row, true);
            &&& after.next is Some
            &&& after.schema == t.schema
            &&& after.rows == t.rows.push(row)
            &&& match cell(row, k) {
                Some(ValueV::Int(n)) => after.next->0 == (if n < before {
                    before
                } else if n < i64::MAX {
                    n + 1
                } else {
                    i64::MAX as int
                }),
                _ => after.next->0 == before,
            }
            &&& t.with_row(row, false).next == t.next
        }),
{
}

/// Stores that agree but for their counters answer every question about their
/// tables and databases alike.
pub proof fn law_counters_hide_nothing(a: StoreV, b: StoreV, table: Seq<char>, key: ValueV)
    ensures
        same_but_counters(a, b) <==> {
            &&& a.databases == b.databases
            &&& a.tables.dom() == b.tables.dom()
            &&& forall|t: Seq<char>|
                #[trigger] a.tables.contains_key(t) ==> a.tables[t].rows == b.tables[t].rows
                    && a.tables[t].schema == b.tables[t].schema
        },
        same_but_counters(a, b) && a.tables.contains_key(table) ==> b.tables.contains_key(table)
            && a.tables[table].lookup(key) == b.tables[table].lookup(key),
{
    if same_but_counters(a, b) && a.tables.contains_key(table) {
        assert(b.tables.dom().contains(table));
    }
}

} // verus!
