//! Durability: what is written to the log before a change is made, how a
//! store is rebuilt from its log, and the compact log that a checkpoint
//! writes.
//!
//! A change goes in three steps. It is planned against the store as it is,
//! which gives the entry to log; the entry's record is appended to the log;
//! and what came of that is settled: the change is made if the record is
//! safe, and otherwise leaves no trace.
use vstd::prelude::*;

use crate::bytes::push_bytes;
use crate::error::{Error, ErrorV};
use crate::seqs::{duplicate_all, opt_view, views, Duplicate};
use crate::storage::api::Storage;
use crate::storage::engine::{lemma_insert_each_appends, InMemoryStorage};
use crate::storage::log::{
    enc_entry, encode_create_database, encode_create_table, encode_drop_database,
    encode_insert_row, encode_transaction, frame, frame_record, placed, placed_rows, replay,
    replay_from, Entry, EntryV, PlacedRow,
};
use crate::storage::log_laws::{lemma_log_of_concat, lemma_log_of_one, log_of};
use crate::storage::model::{lists, new_table, StoreV, TableV};
use crate::storage::value::{ColumnSchema, Value, ValueV};

verus! {

broadcast use crate::seqs::group_views;

impl Entry {
    /// The log record that carries this entry.
    pub fn to_record(&self) -> (r: Vec<u8>)
        ensures
            r@ == frame(enc_entry(self@)),
    {
        let payload = match self {
            Entry::CreateTable { table, columns, primary_key } => {
                let pk: Option<&str> = match primary_key {
                    Some(p) => Some(p.as_str()),
                    None => None,
                };
                encode_create_table(table.as_str(), columns.as_slice(), pk)
            },
            Entry::InsertRow { table, row } => encode_insert_row(table.as_str(), row.as_slice()),
            Entry::Transaction { rows } => encode_transaction(rows.as_slice()),
            Entry::CreateDatabase { name } => encode_create_database(name.as_str()),
            Entry::DropDatabase { name } => encode_drop_database(name.as_str()),
        };
        frame_record(payload.as_slice())
    }
}

/// Whether a planned change is the wanted one: the entry to log brings the
/// store to where it should be, or there is none because the change is
/// refused.
pub open spec fn plans(
    r: Result<Option<Entry>, Error>,
    before: StoreV,
    wanted: Result<StoreV, ErrorV>,
) -> bool {
    match wanted {
        Ok(after) => match r {
            Ok(Some(e)) => before.apply(e@) == after,
            Ok(None) => before == after,
            Err(_) => false,
        },
        Err(e) => r matches Err(x) && x@ == e,
    }
}

/// The outcome of a batch as a change that happens or does not.
pub open spec fn all_or_nothing(s: StoreV, rows: Seq<PlacedRow>) -> Result<StoreV, ErrorV> {
    match s.insert_batch(rows, false) {
        (after, None) => Ok(after),
        (_, Some(e)) => Err(e),
    }
}

impl InMemoryStorage {
    /// The entry that creates a table.
    pub fn plan_create_table(
        &self,
        name: &str,
        columns: &Vec<ColumnSchema>,
        primary_key: &Option<String>,
    ) -> (r: Result<Option<Entry>, Error>)
        requires
            self.ok(),
        ensures
            plans(
                r,
                self.content(),
                self.content().create_table(name@, views(columns@), opt_view(*primary_key)),
            ),
            r matches Ok(e) ==> e is Some,
    {
        let pk: Option<&str> = match primary_key {
            Some(p) => Some(p.as_str()),
            None => None,
        };
        self.check_create_table(name, columns.as_slice(), pk)?;
        let key: Option<String> = match primary_key {
            Some(p) => Some(p.clone()),
            None => None,
        };
        Ok(
            Some(
                Entry::CreateTable {
                    table: name.to_string(),
                    columns: duplicate_all(columns),
                    primary_key: key,
                },
            ),
        )
    }

    /// The entry that inserts a row.
    pub fn plan_insert_row(&self, table: &str, row: &Vec<Value>) -> (r: Result<Option<Entry>, Error>)
        requires
            self.ok(),
        ensures
            plans(
                r,
                self.content(),
                all_or_nothing(
                    self.content(),
                    seq![PlacedRow { table: table@, row: views(row@) }],
                ),
            ),
            r matches Ok(e) ==> e is Some,
    {
        let ghost p = PlacedRow { table: table@, row: views(row@) };
        let ghost before = self.content();
        proof {
            let one = seq![p];
            assert(before.insert_each(one, true, 0) == (before, None::<ErrorV>));
            assert(before.insert_each(one, true, 1) == (match before.refusal(p) {
                Some(e) => (before, Some(e)),
                None => (before.with_row(p, true), None),
            }));
        }
        self.check_insert_row(table, row)?;
        Ok(Some(Entry::InsertRow { table: table.to_string(), row: duplicate_all(row) }))
    }

    /// The entry that inserts a batch of rows as one unit; none for an empty
    /// batch.
    pub fn plan_insert_rows(&self, rows: &Vec<(String, Vec<Value>)>) -> (r: Result<
        Option<Entry>,
        Error,
    >)
        requires
            self.ok(),
        ensures
            plans(r, self.content(), all_or_nothing(self.content(), placed_rows(rows@))),
            r matches Ok(e) ==> (e is None <==> rows@.len() == 0),
    {
        if rows.len() == 0 {
            return Ok(None);
        }
        let ghost all = placed_rows(rows@);
        let ghost before = self.content();
        self.check_insert_rows(rows.as_slice())?;
        proof {
            lemma_insert_each_appends(before, all, all.len() as int);
            assert(all.take(all.len() as int) =~= all);
        }
        Ok(Some(Entry::Transaction { rows: copy_placed(rows) }))
    }

    /// The entry that registers a database; none if it is there already and
    /// that is no error.
    pub fn plan_create_database(&self, name: &str, if_not_exists: bool) -> (r: Result<
        Option<Entry>,
        Error,
    >)
        requires
            self.ok(),
        ensures
            plans(r, self.content(), self.content().create_database(name@, if_not_exists)),
            r matches Ok(e) ==> (e is None <==> self.content().databases.contains(name@)),
    {
        if self.check_create_database(name, if_not_exists)? {
            Ok(Some(Entry::CreateDatabase { name: name.to_string() }))
        } else {
            proof {
                assert(self.content().databases.insert(name@) =~= self.content().databases);
            }
            Ok(None)
        }
    }

    /// The entry that unregisters a database.
    pub fn plan_drop_database(&self, name: &str, if_exists: bool) -> (r: Result<
        Option<Entry>,
        Error,
    >)
        requires
            self.ok(),
        ensures
            plans(r, self.content(), self.content().drop_database(name@, if_exists)),
            r matches Ok(e) ==> e is Some,
    {
        self.check_drop_database(name, if_exists)?;
        Ok(Some(Entry::DropDatabase { name: name.to_string() }))
    }

    /// Make a planned change, if its record was written; otherwise leave the
    /// store as it is and pass the failure on.
    pub fn settle(&mut self, entry: Entry, written: Result<(), Error>) -> (r: Result<(), Error>)
        requires
            old(self).ok(),
        ensures
            final(self).ok(),
            r == written,
            final(self).content() == (match written {
                Ok(_) => old(self).content().apply(entry@),
                Err(_) => old(self).content(),
            }),
    {
        match &written {
            Ok(_) => self.apply_entry(entry),
            Err(_) => {},
        }
        written
    }

    /// Rebuild a store from the bytes of its log. The second part of the
    /// result is the length up to which the log is good.
    pub fn restore(file: &[u8]) -> (r: Result<(InMemoryStorage, usize), Error>)
        ensures
            match replay_from(file@, 0) {
                Ok((es, good)) => r matches Ok((s, g)) && g == good && s.ok() && s.content()
                    == StoreV::empty().apply_all(es),
                Err(e) => r matches Err(x) && x@ == e,
            },
    {
        let (entries, good) = replay(file)?;
        let mut store = InMemoryStorage::new();
        store.apply_entries(entries);
        Ok((store, good))
    }

    /// Apply logged entries in order.
    fn apply_entries(&mut self, entries: Vec<Entry>)
        requires
            old(self).ok(),
        ensures
            final(self).ok(),
            final(self).content() == old(self).content().apply_all(views(entries@)),
    {
        let ghost start = self.content();
        let ghost all = views(entries@);
        proof {
            assert(all.take(0) =~= Seq::empty());
        }
        for entry in it: entries
            invariant
                views(it.seq()) == all,
                self.ok(),
                self.content() == start.apply_all(all.take(it.index() as int)),
        {
            proof {
                let i = it.index() as int;
                assert(views(it.seq())[i] == it.seq()[i]@);
                assert(all.take(i + 1).drop_last() =~= all.take(i));
                assert(all.take(i + 1).last() == all[i]);
            }
            self.apply_entry(entry);
        }
        proof {
            assert(all.take(all.len() as int) =~= all);
        }
    }
}

/// A copy of rows and their tables.
fn copy_placed(rows: &Vec<(String, Vec<Value>)>) -> (r: Vec<(String, Vec<Value>)>)
    ensures
        placed_rows(r@) == placed_rows(rows@),
{
    let mut out: Vec<(String, Vec<Value>)> = Vec::new();
    let mut i: usize = 0;
    while i < rows.len()
        invariant
            i <= rows@.len(),
            out@.len() == i,
            forall|k: int| 0 <= k < i ==> placed(#[trigger] out@[k]) == placed(rows@[k]),
        decreases rows@.len() - i,
    {
        out.push((rows[i].0.clone(), duplicate_all(&rows[i].1)));
        i = i + 1;
    }
    proof {
        assert(placed_rows(out@) =~= placed_rows(rows@));
    }
    out
}

// ---------- checkpoints ----------

/// Whether a log of this length is worth rewriting.
pub fn checkpoint_due(log_bytes: u64, threshold_bytes: u64) -> (r: bool)
    ensures
        r == (log_bytes >= threshold_bytes),
{
    log_bytes >= threshold_bytes
}

/// Rows of one table, placed in it.
pub open spec fn all_in(table: Seq<char>, rows: Seq<Seq<ValueV>>) -> Seq<PlacedRow> {
    Seq::new(rows.len(), |i: int| PlacedRow { table, row: rows[i] })
}

/// The entries that recreate a table: its schema, then all of its rows in one
/// batch, if it has any.
pub open spec fn table_entries(name: Seq<char>, t: TableV) -> Seq<EntryV> {
    let schema = EntryV::CreateTable {
        table: name,
        columns: t.schema.columns,
        primary_key: t.schema.primary_key,
    };
    if t.rows.len() == 0 {
        seq![schema]
    } else {
        seq![schema, EntryV::Transaction { rows: all_in(name, t.rows) }]
    }
}

/// The entries that recreate the first `n` tables of a listing.
pub open spec fn tables_entries(listing: Seq<(Seq<char>, TableV)>, n: int) -> Seq<EntryV>
    decreases n,
{
    if n <= 0 || n > listing.len() {
        Seq::empty()
    } else {
        tables_entries(listing, n - 1) + table_entries(listing[n - 1].0, listing[n - 1].1)
    }
}

/// The entries that register databases.
pub open spec fn database_entries(names: Seq<Seq<char>>) -> Seq<EntryV> {
    Seq::new(names.len(), |i: int| EntryV::CreateDatabase { name: names[i] })
}

/// A table with rows appended, each counted as it comes.
pub open spec fn filled(t: TableV, rows: Seq<Seq<ValueV>>) -> TableV
    decreases rows.len(),
{
    if rows.len() == 0 {
        t
    } else {
        filled(t, rows.drop_last()).with_row(rows.last(), true)
    }
}

/// A table with its counter worked out from its rows.
pub open spec fn recounted(t: TableV) -> TableV {
    filled(new_table(t.schema.columns, t.schema.primary_key), t.rows)
}

/// A store with every counter worked out from the rows.
pub open spec fn recounted_store(s: StoreV) -> StoreV {
    StoreV {
        tables: Map::new(|name: Seq<char>| s.tables.contains_key(name), |name: Seq<char>|
            recounted(s.tables[name])),
        databases: s.databases,
    }
}

/// Filling a table keeps its schema and appends the rows.
pub proof fn lemma_filled(t: TableV, rows: Seq<Seq<ValueV>>)
    ensures
        filled(t, rows).schema == t.schema,
        filled(t, rows).rows == t.rows + rows,
    decreases rows.len(),
{
    if rows.len() == 0 {
        assert(t.rows + rows =~= t.rows);
    } else {
        lemma_filled(t, rows.drop_last());
        assert((t.rows + rows.drop_last()).push(rows.last()) =~= t.rows + rows);
    }
}

/// Recounting changes nothing but the counter.
pub proof fn lemma_recounted(t: TableV)
    ensures
        recounted(t).schema == t.schema,
        recounted(t).rows == t.rows,
{
    lemma_filled(new_table(t.schema.columns, t.schema.primary_key), t.rows);
    assert(Seq::<Seq<ValueV>>::empty() + t.rows =~= t.rows);
}

/// Rows that all go to one table fill that table.
proof fn lemma_with_rows_of_one(
    s: StoreV,
    name: Seq<char>,
    t: TableV,
    rows: Seq<Seq<ValueV>>,
)
    ensures
        s.with_table(name, t).with_rows(all_in(name, rows)) == s.with_table(name, filled(t, rows)),
    decreases rows.len(),
{
    if rows.len() > 0 {
        lemma_with_rows_of_one(s, name, t, rows.drop_last());
        let all = all_in(name, rows);
        assert(all.drop_last() =~= all_in(name, rows.drop_last()));
        assert(all.last() == PlacedRow { table: name, row: rows.last() });
        let before = s.with_table(name, filled(t, rows.drop_last()));
        assert(before.with_row(all.last(), true).tables =~= s.with_table(
            name,
            filled(t, rows),
        ).tables);
    } else {
        assert(all_in(name, rows) =~= Seq::empty());
    }
}

/// Applying entries in two goes.
pub proof fn lemma_apply_all_concat(s: StoreV, a: Seq<EntryV>, b: Seq<EntryV>)
    ensures
        s.apply_all(a + b) == s.apply_all(a).apply_all(b),
    decreases b.len(),
{
    if b.len() == 0 {
        assert(a + b =~= a);
    } else {
        lemma_apply_all_concat(s, a, b.drop_last());
        assert((a + b).drop_last() =~= a + b.drop_last());
        assert((a + b).last() == b.last());
    }
}

/// Applying one entry.
pub proof fn lemma_apply_one(s: StoreV, e: EntryV)
    ensures
        s.apply_all(seq![e]) == s.apply(e),
{
    let one = seq![e];
    assert(one.drop_last() =~= Seq::empty());
    assert(s.apply_all(one.drop_last()) == s);
    assert(one.last() == e);
}

/// A table's entries recreate it.
proof fn lemma_table_entries(s: StoreV, name: Seq<char>, t: TableV)
    ensures
        s.apply_all(table_entries(name, t)) == s.with_table(name, recounted(t)),
{
    let schema = EntryV::CreateTable {
        table: name,
        columns: t.schema.columns,
        primary_key: t.schema.primary_key,
    };
    let empty = new_table(t.schema.columns, t.schema.primary_key);
    lemma_apply_one(s, schema);
    if t.rows.len() > 0 {
        let batch = EntryV::Transaction { rows: all_in(name, t.rows) };
        lemma_apply_all_concat(s, seq![schema], seq![batch]);
        assert(seq![schema] + seq![batch] =~= table_entries(name, t));
        lemma_apply_one(s.apply(schema), batch);
        lemma_with_rows_of_one(s, name, empty, t.rows);
    } else {
        assert(filled(empty, t.rows) == empty);
    }
}

/// The first `n` tables of a listing, recounted.
pub open spec fn holds_first(s: StoreV, listing: Seq<(Seq<char>, TableV)>, n: int) -> bool {
    &&& forall|i: int|
        #![trigger listing[i]]
        0 <= i < n ==> s.tables.contains_key(listing[i].0) && s.tables[listing[i].0] == recounted(
            listing[i].1,
        )
    &&& forall|name: Seq<char>| #[trigger]
        s.tables.contains_key(name) ==> exists|i: int|
            0 <= i < n && (#[trigger] listing[i]).0 == name
}

proof fn lemma_tables_entries(listing: Seq<(Seq<char>, TableV)>, n: int)
    requires
        0 <= n <= listing.len(),
        forall|i: int, j: int|
            0 <= i < listing.len() && 0 <= j < listing.len() && i != j ==> (#[trigger] listing[i]).0
                != (#[trigger] listing[j]).0,
    ensures
        holds_first(StoreV::empty().apply_all(tables_entries(listing, n)), listing, n),
        StoreV::empty().apply_all(tables_entries(listing, n)).databases == Set::<Seq<char>>::empty(),
    decreases n,
{
    if n > 0 {
        lemma_tables_entries(listing, n - 1);
        let s = StoreV::empty().apply_all(tables_entries(listing, n - 1));
        let (name, t) = listing[n - 1];
        lemma_apply_all_concat(
            StoreV::empty(),
            tables_entries(listing, n - 1),
            table_entries(name, t),
        );
        lemma_table_entries(s, name, t);
        let after = s.with_table(name, recounted(t));
        assert forall|x: Seq<char>| #[trigger] after.tables.contains_key(x) implies exists|i: int|
            0 <= i < n && (#[trigger] listing[i]).0 == x by {
            if x == name {
                assert(listing[n - 1].0 == x);
            } else {
                assert(s.tables.contains_key(x));
                let i = choose|i: int| 0 <= i < n - 1 && (#[trigger] listing[i]).0 == x;
                assert(listing[i].0 == x);
            }
        }
    }
}

proof fn lemma_database_entries(s: StoreV, names: Seq<Seq<char>>)
    ensures
        s.apply_all(database_entries(names)).tables == s.tables,
        forall|x: Seq<char>| #[trigger]
            s.apply_all(database_entries(names)).databases.contains(x) <==> s.databases.contains(x)
                || names.contains(x),
    decreases names.len(),
{
    let es = database_entries(names);
    if names.len() > 0 {
        lemma_database_entries(s, names.drop_last());
        assert(es.drop_last() =~= database_entries(names.drop_last()));
        assert(es.last() == EntryV::CreateDatabase { name: names.last() });
        assert forall|x: Seq<char>| #[trigger]
            s.apply_all(es).databases.contains(x) <==> s.databases.contains(x) || names.contains(
                x,
            ) by {
            assert(s.apply_all(es).databases == s.apply_all(es.drop_last()).databases.insert(
                names.last(),
            ));
            assert(s.apply_all(es.drop_last()).databases.contains(x) <==> s.databases.contains(x)
                || names.drop_last().contains(x));
            if names.contains(x) {
                let i = names.index_of(x);
                if i < names.len() - 1 {
                    assert(names.drop_last()[i] == x);
                }
            }
            if names.drop_last().contains(x) {
                let i = names.drop_last().index_of(x);
                assert(names[i] == x);
            }
            assert(names[names.len() - 1] == names.last());
        }
    }
}

/// Whether entries recreate a store, counters worked out anew.
pub open spec fn recreates(es: Seq<EntryV>, s: StoreV) -> bool {
    StoreV::empty().apply_all(es) == recounted_store(s)
}

/// The tables called `names`, with their content.
pub open spec fn named_tables(s: StoreV, names: Seq<Seq<char>>) -> Seq<(Seq<char>, TableV)> {
    Seq::new(names.len(), |i: int| (names[i], s.tables[names[i]]))
}

/// The entries of a compact log: for each table its schema and, if it has
/// rows, one batch with all of them; then the databases.
pub open spec fn compact_entries(
    s: StoreV,
    names: Seq<Seq<char>>,
    databases: Seq<Seq<char>>,
) -> Seq<EntryV> {
    tables_entries(named_tables(s, names), names.len() as int) + database_entries(databases)
}

/// Whether `es` are the entries of a compact log of `s`, with every table and
/// every database in it once, in some order.
pub open spec fn compact(es: Seq<EntryV>, s: StoreV) -> bool {
    exists|names: Seq<Seq<char>>, databases: Seq<Seq<char>>|
        #![trigger compact_entries(s, names, databases)]
        {
            &&& lists(names, s.tables.dom())
            &&& lists(databases, s.databases)
            &&& es == compact_entries(s, names, databases)
        }
}

/// A compact log recreates its store.
pub proof fn lemma_compact_recreates(es: Seq<EntryV>, s: StoreV)
    requires
        compact(es, s),
    ensures
        recreates(es, s),
{
    let (names, databases) = choose|names: Seq<Seq<char>>, databases: Seq<Seq<char>>|
        #![trigger compact_entries(s, names, databases)]
        {
            &&& lists(names, s.tables.dom())
            &&& lists(databases, s.databases)
            &&& es == compact_entries(s, names, databases)
        };
    let listing = named_tables(s, names);
    let n = names.len() as int;
    let te = tables_entries(listing, n);
    let de = database_entries(databases);
    lemma_tables_entries(listing, n);
    lemma_apply_all_concat(StoreV::empty(), te, de);
    let t = StoreV::empty().apply_all(te);
    lemma_database_entries(t, databases);
    let rebuilt = StoreV::empty().apply_all(es);
    let wanted = recounted_store(s);
    assert forall|x: Seq<char>| rebuilt.tables.contains_key(x) == wanted.tables.contains_key(x) by {
        if rebuilt.tables.contains_key(x) {
            let i = choose|i: int| 0 <= i < n && (#[trigger] listing[i]).0 == x;
            assert(names[i] == x);
            assert(s.tables.dom().contains(x));
        }
        if s.tables.contains_key(x) {
            assert(s.tables.dom().contains(x));
            let i = names.index_of(x);
            assert(t.tables.contains_key(listing[i].0));
        }
    }
    assert forall|x: Seq<char>| rebuilt.tables.contains_key(x) implies rebuilt.tables[x]
        == wanted.tables[x] by {
        let i = choose|i: int| 0 <= i < n && (#[trigger] listing[i]).0 == x;
        assert(t.tables[listing[i].0] == recounted(listing[i].1));
    }
    assert(rebuilt.tables =~= wanted.tables);
    assert(rebuilt.databases =~= wanted.databases);
}

impl InMemoryStorage {
    /// The compact log of the store as it is: for each table its schema and
    /// one batch with all of its rows, and every database name.
    pub fn snapshot(&self) -> (r: Vec<u8>)
        requires
            self.ok(),
        ensures
            exists|es: Seq<EntryV>| #[trigger] compact(es, self.content()) && r@ == log_of(es),
    {
        let ghost listing = self.listing();
        let mut out: Vec<u8> = Vec::new();
        let n: usize = self.table_count();
        let mut i: usize = 0;
        proof {
            assert(log_of(tables_entries(listing, 0)) =~= Seq::<u8>::empty());
        }
        while i < n
            invariant
                i <= n,
                n == listing.len(),
                listing == self.listing(),
                out@ == log_of(tables_entries(listing, i as int)),
            decreases n - i,
        {
            let (name, table) = self.table_at(i);
            let schema = table.schema();
            let pk: Option<&str> = match &schema.primary_key {
                Some(p) => Some(p.as_str()),
                None => None,
            };
            let ghost start = out@;
            let ghost t = table@;
            let ghost first = EntryV::CreateTable {
                table: name@,
                columns: t.schema.columns,
                primary_key: t.schema.primary_key,
            };
            let payload = encode_create_table(name.as_str(), schema.columns.as_slice(), pk);
            push_bytes(&mut out, frame_record(payload.as_slice()).as_slice());
            let rows = table.rows();
            if rows.len() > 0 {
                let mut batch: Vec<(String, Vec<Value>)> = Vec::new();
                let mut j: usize = 0;
                while j < rows.len()
                    invariant
                        j <= rows@.len(),
                        batch@.len() == j,
                        forall|k: int|
                            0 <= k < j ==> placed(#[trigger] batch@[k]) == (PlacedRow {
                                table: name@,
                                row: views(rows@[k]@),
                            }),
                    decreases rows@.len() - j,
                {
                    batch.push((name.clone(), duplicate_all(&rows[j])));
                    j = j + 1;
                }
                proof {
                    assert(placed_rows(batch@) =~= all_in(name@, t.rows));
                }
                let payload = encode_transaction(batch.as_slice());
                push_bytes(&mut out, frame_record(payload.as_slice()).as_slice());
            }
            proof {
                let es = table_entries(name@, t);
                assert(tables_entries(listing, i + 1) == tables_entries(listing, i as int) + es);
                lemma_log_of_concat(tables_entries(listing, i as int), es);
                lemma_log_of_one(first);
                if t.rows.len() > 0 {
                    let batch = EntryV::Transaction { rows: all_in(name@, t.rows) };
                    lemma_log_of_one(batch);
                    lemma_log_of_concat(seq![first], seq![batch]);
                    assert(seq![first] + seq![batch] =~= es);
                }
                assert(out@ =~= start + log_of(es));
            }
            i = i + 1;
        }
        let names = self.database_names();
        let ghost ns = views(names@);
        let ghost tables_part = out@;
        let mut k: usize = 0;
        proof {
            assert(ns.take(0) =~= Seq::empty());
            assert(database_entries(ns.take(0)) =~= Seq::empty());
            assert(tables_part + log_of(database_entries(ns.take(0))) =~= tables_part);
        }
        while k < names.len()
            invariant
                k <= names@.len(),
                ns == views(names@),
                out@ == tables_part + log_of(database_entries(ns.take(k as int))),
            decreases names@.len() - k,
        {
            let payload = encode_create_database(names[k].as_str());
            let ghost start = out@;
            push_bytes(&mut out, frame_record(payload.as_slice()).as_slice());
            proof {
                let e = EntryV::CreateDatabase { name: ns[k as int] };
                let before = database_entries(ns.take(k as int));
                assert(database_entries(ns.take(k + 1)) =~= before + seq![e]);
                lemma_log_of_one(e);
                lemma_log_of_concat(before, seq![e]);
                assert(out@ =~= tables_part + (log_of(before) + log_of(seq![e])));
            }
            k = k + 1;
        }
        proof {
            assert(ns.take(ns.len() as int) =~= ns);
            let te = tables_entries(listing, n as int);
            let de = database_entries(ns);
            lemma_log_of_concat(te, de);
            self.lemma_listing();
            let s = self.content();
            let tables = Seq::new(listing.len(), |i: int| listing[i].0);
            assert(listing =~= named_tables(s, tables)) by {
                assert forall|i: int| 0 <= i < listing.len() implies listing[i] == (
                    tables[i],
                    s.tables[tables[i]],
                ) by {
                    assert(self.content().tables[self.listing()[i].0] == self.listing()[i].1);
                }
            }
            assert(lists(tables, s.tables.dom())) by {
                assert forall|x: Seq<char>| tables.contains(x) <==> #[trigger]
                    s.tables.dom().contains(x) by {
                    if tables.contains(x) {
                        let i = tables.index_of(x);
                        assert(self.content().tables.contains_key(self.listing()[i].0));
                    }
                    if s.tables.contains_key(x) {
                        let i = choose|i: int|
                            0 <= i < self.listing().len() && (#[trigger] self.listing()[i]).0 == x;
                        assert(tables[i] == x);
                    }
                }
                assert forall|i: int, j: int|
                    0 <= i < tables.len() && 0 <= j < tables.len() && i != j implies tables[i]
                    != tables[j] by {
                    assert(self.listing()[i].0 != self.listing()[j].0);
                }
            }
            assert(compact_entries(s, tables, ns) == te + de);
            assert(compact(te + de, s));
        }
        out
    }
}

} // verus!
