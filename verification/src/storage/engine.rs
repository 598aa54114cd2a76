//! The in-memory storage engine. It holds tables and database names, checks
//! every change before it is made, and can be rebuilt from logged entries.
use vstd::prelude::*;
use std::sync::Arc;

use crate::error::{Error, ErrorV};
use crate::seqs::{duplicate_all, views, Duplicate};
use crate::storage::api::{filtered, io_failure, kept, Storage};
use crate::storage::log::{placed, placed_rows, Entry, PlacedRow};
use crate::storage::model::{
    cell, last_with, lists, no_such_table, rows_view, NamesV, PlacedRowsV, StoreV, TableV,
};
use crate::storage::table::{copy_rows, find_column, Table};
use crate::storage::value::{same_value, ColumnSchema, TableSchema, Value, ValueV};
use crate::text::{cat3, same_text};

verus! {

broadcast use crate::seqs::group_views;

/// Keeps everything in memory.
#[derive(Debug)]
pub struct InMemoryStorage {
    tables: Vec<(String, Table)>,
    /// Registered database names.
    databases: Vec<String>,
}

/// The place of the table called `name`, from `i` on.
spec fn place_from(tables: Seq<(String, Table)>, name: Seq<char>, i: int) -> Option<int>
    decreases tables.len() - i,
{
    if i < 0 || i >= tables.len() {
        None
    } else if tables[i].0@ == name {
        Some(i)
    } else {
        place_from(tables, name, i + 1)
    }
}

spec fn place_of(tables: Seq<(String, Table)>, name: Seq<char>) -> Option<int> {
    place_from(tables, name, 0)
}

spec fn table_map(tables: Seq<(String, Table)>) -> Map<Seq<char>, TableV> {
    Map::new(
        |name: Seq<char>| place_of(tables, name) is Some,
        |name: Seq<char>| tables[place_of(tables, name)->0].1@,
    )
}

spec fn name_set(names: Seq<Seq<char>>) -> Set<Seq<char>> {
    Set::new(|name: Seq<char>| names.contains(name))
}

spec fn names_of(tables: Seq<(String, Table)>) -> Seq<Seq<char>> {
    Seq::new(tables.len(), |i: int| tables[i].0@)
}

proof fn lemma_place_from(tables: Seq<(String, Table)>, name: Seq<char>, i: int)
    requires
        0 <= i,
    ensures
        match place_from(tables, name, i) {
            Some(k) => i <= k < tables.len() && tables[k].0@ == name && forall|j: int|
                i <= j < k ==> (#[trigger] tables[j]).0@ != name,
            None => forall|j: int| i <= j < tables.len() ==> (#[trigger] tables[j]).0@ != name,
        },
    decreases tables.len() - i,
{
    if i < tables.len() && tables[i].0@ != name {
        lemma_place_from(tables, name, i + 1);
    }
}

proof fn lemma_place_unique(tables: Seq<(String, Table)>, name: Seq<char>, k: int)
    requires
        0 <= k < tables.len(),
        tables[k].0@ == name,
        names_of(tables).no_duplicates(),
    ensures
        place_of(tables, name) == Some(k),
{
    lemma_place_from(tables, name, 0);
    let p = place_of(tables, name)->0;
    assert(names_of(tables)[p] == name);
    assert(names_of(tables)[k] == name);
}

/// Adding a table under a new name.
proof fn lemma_map_push(tables: Seq<(String, Table)>, name: String, t: Table)
    requires
        place_of(tables, name@) is None,
        names_of(tables).no_duplicates(),
    ensures
        table_map(tables.push((name, t))) == table_map(tables).insert(name@, t@),
        names_of(tables.push((name, t))).no_duplicates(),
{
    let after = tables.push((name, t));
    lemma_place_from(tables, name@, 0);
    assert(names_of(after) =~= names_of(tables).push(name@));
    assert forall|i: int, j: int|
        0 <= i < names_of(after).len() && 0 <= j < names_of(after).len() && i != j implies names_of(
        after,
    )[i] != names_of(after)[j] by {
        if i < tables.len() {
            assert(names_of(tables)[i] == tables[i].0@);
        }
        if j < tables.len() {
            assert(names_of(tables)[j] == tables[j].0@);
        }
    }
    assert forall|n: Seq<char>|
        #![trigger place_of(after, n)]
        place_of(after, n) == (if n == name@ {
            Some(tables.len() as int)
        } else {
            place_of(tables, n)
        }) by {
        lemma_place_from(tables, n, 0);
        lemma_place_from(after, n, 0);
        if n == name@ {
            lemma_place_unique(after, n, tables.len() as int);
        } else {
            match place_of(tables, n) {
                Some(k) => {
                    assert(after[k] == tables[k]);
                    lemma_place_unique(after, n, k);
                },
                None => {
                    match place_of(after, n) {
                        Some(k) => {
                            if k < tables.len() {
                                assert(after[k] == tables[k]);
                            }
                        },
                        None => {},
                    }
                },
            }
        }
    }
    assert forall|n: Seq<char>| table_map(after).contains_key(n) == table_map(tables).insert(
        name@,
        t@,
    ).contains_key(n) by {
        assert(place_of(after, n) == (if n == name@ {
            Some(tables.len() as int)
        } else {
            place_of(tables, n)
        }));
    }
    assert forall|n: Seq<char>| table_map(after).contains_key(n) implies table_map(after)[n]
        == table_map(tables).insert(name@, t@)[n] by {
        assert(place_of(after, n) == (if n == name@ {
            Some(tables.len() as int)
        } else {
            place_of(tables, n)
        }));
        lemma_place_from(tables, n, 0);
    }
    assert(table_map(after) =~= table_map(tables).insert(name@, t@));
}

/// Replacing a table's content.
proof fn lemma_map_update(tables: Seq<(String, Table)>, k: int, entry: (String, Table))
    requires
        0 <= k < tables.len(),
        entry.0@ == tables[k].0@,
        names_of(tables).no_duplicates(),
    ensures
        table_map(tables.update(k, entry)) == table_map(tables).insert(entry.0@, entry.1@),
        names_of(tables.update(k, entry)) == names_of(tables),
{
    let after = tables.update(k, entry);
    let name = entry.0@;
    assert(names_of(after) =~= names_of(tables));
    assert forall|n: Seq<char>| #[trigger] place_of(after, n) == place_of(tables, n) by {
        lemma_place_from(tables, n, 0);
        lemma_place_from(after, n, 0);
        match place_of(tables, n) {
            Some(p) => {
                assert(after[p].0@ == n);
                lemma_place_unique(after, n, p);
            },
            None => {
                match place_of(after, n) {
                    Some(p) => assert(tables[p].0@ == n),
                    None => {},
                }
            },
        }
    }
    lemma_place_unique(tables, name, k);
    assert forall|n: Seq<char>| table_map(after).contains_key(n) == table_map(tables).insert(
        name,
        entry.1@,
    ).contains_key(n) by {
        assert(place_of(after, n) == place_of(tables, n));
    }
    assert forall|n: Seq<char>| table_map(after).contains_key(n) implies table_map(after)[n]
        == table_map(tables).insert(name, entry.1@)[n] by {
        assert(place_of(after, n) == place_of(tables, n));
        lemma_place_from(tables, n, 0);
        if n != name {
            assert(after[place_of(tables, n)->0] == tables[place_of(tables, n)->0]);
        }
    }
    assert(table_map(after) =~= table_map(tables).insert(name, entry.1@));
}

fn no_table(name: &str) -> (r: Error)
    ensures
        r@ == no_such_table(name@),
{
    Error::Execution(cat3("Table '", name, "' doesn't exist"))
}

/// Where `name` stands in a list of names.
fn has_name(names: &Vec<String>, name: &str) -> (r: Option<usize>)
    ensures
        match r {
            Some(i) => i < names@.len() && names@[i as int]@ == name@,
            None => !views(names@).contains(name@),
        },
{
    let mut i: usize = 0;
    while i < names.len()
        invariant
            i <= names@.len(),
            forall|j: int| 0 <= j < i ==> (#[trigger] names@[j])@ != name@,
        decreases names@.len() - i,
    {
        if same_text(names[i].as_str(), name) {
            return Some(i);
        }
        i = i + 1;
    }
    proof {
        assert(!views(names@).contains(name@)) by {
            if views(names@).contains(name@) {
                let j = views(names@).index_of(name@);
                assert(names@[j]@ == name@);
            }
        }
    }
    None
}

impl InMemoryStorage {
    /// What the store holds.
    pub closed spec fn content(&self) -> StoreV {
        StoreV { tables: table_map(self.tables@), databases: name_set(views(self.databases@)) }
    }

    /// Whether no name occurs twice and every table is in good order.
    pub closed spec fn ok(&self) -> bool {
        &&& names_of(self.tables@).no_duplicates()
        &&& views(self.databases@).no_duplicates()
        &&& forall|i: int| 0 <= i < self.tables@.len() ==> (#[trigger] self.tables@[i]).1.wf()
    }

    /// The tables and their names, in the order they were created.
    pub closed spec fn listing(&self) -> Seq<(Seq<char>, TableV)> {
        Seq::new(self.tables@.len(), |i: int| (self.tables@[i].0@, self.tables@[i].1@))
    }

    /// How many tables there are.
    pub(crate) fn table_count(&self) -> (r: usize)
        ensures
            r == self.listing().len(),
    {
        self.tables.len()
    }

    /// The name and the content of a table.
    pub(crate) fn table_at(&self, i: usize) -> (r: (&String, &Table))
        requires
            i < self.listing().len(),
        ensures
            (r.0@, r.1@) == self.listing()[i as int],
    {
        let entry = &self.tables[i];
        (&entry.0, &entry.1)
    }

    /// The registered database names.
    pub(crate) fn database_names(&self) -> (r: Vec<String>)
        requires
            self.ok(),
        ensures
            lists(views(r@), self.content().databases),
    {
        duplicate_all(&self.databases)
    }

    /// The listing is the whole of the tables.
    pub proof fn lemma_listing(&self)
        requires
            self.ok(),
        ensures
            forall|i: int, j: int|
                0 <= i < self.listing().len() && 0 <= j < self.listing().len() && i != j
                    ==> (#[trigger] self.listing()[i]).0 != (#[trigger] self.listing()[j]).0,
            forall|i: int|
                #![trigger self.listing()[i]]
                0 <= i < self.listing().len() ==> self.content().tables.contains_key(
                    self.listing()[i].0,
                ) && self.content().tables[self.listing()[i].0] == self.listing()[i].1,
            forall|name: Seq<char>| #[trigger]
                self.content().tables.contains_key(name) ==> exists|i: int|
                    0 <= i < self.listing().len() && (#[trigger] self.listing()[i]).0 == name,
    {
        let all = self.listing();
        let names = names_of(self.tables@);
        assert forall|i: int, j: int|
            0 <= i < all.len() && 0 <= j < all.len() && i != j implies (#[trigger] all[i]).0 != (
        #[trigger] all[j]).0 by {
            assert(names[i] != names[j]);
        }
        assert forall|i: int| #![trigger all[i]] 0 <= i < all.len() implies self.content().tables.contains_key(
            all[i].0,
        ) && self.content().tables[all[i].0] == all[i].1 by {
            lemma_place_unique(self.tables@, all[i].0, i);
        }
        assert forall|name: Seq<char>| #[trigger] self.content().tables.contains_key(name) implies exists|
            i: int,
        |
            0 <= i < all.len() && (#[trigger] all[i]).0 == name by {
            lemma_place_from(self.tables@, name, 0);
            let k = place_of(self.tables@, name)->0;
            assert(all[k].0 == name);
        }
    }

    /// An empty store.
    pub fn new() -> (r: Self)
        ensures
            r.ok(),
            r.content() == StoreV::empty(),
    {
        let s = InMemoryStorage { tables: Vec::new(), databases: Vec::new() };
        proof {
            assert(s.content().tables =~= Map::empty());
            assert(s.content().databases =~= Set::empty());
        }
        s
    }

    /// Where the table called `name` stands.
    fn place(&self, name: &str) -> (r: Option<usize>)
        requires
            self.ok(),
        ensures
            match r {
                Some(k) => {
                    &&& k < self.tables@.len()
                    &&& place_of(self.tables@, name@) == Some(k as int)
                    &&& self.tables@[k as int].0@ == name@
                    &&& self.tables@[k as int].1.wf()
                    &&& self.content().table(name@) == Ok::<TableV, ErrorV>(
                        self.tables@[k as int].1@,
                    )
                },
                None => place_of(self.tables@, name@) is None && self.content().table(name@)
                    == Err::<TableV, ErrorV>(no_such_table(name@)),
            },
    {
        let mut i: usize = 0;
        while i < self.tables.len()
            invariant
                i <= self.tables@.len(),
                self.ok(),
                place_from(self.tables@, name@, 0) == place_from(self.tables@, name@, i as int),
            decreases self.tables@.len() - i,
        {
            if same_text(self.tables[i].0.as_str(), name) {
                return Some(i);
            }
            i = i + 1;
        }
        None
    }

    /// Put a table under `name`, in place of any that is there.
    fn put_table(&mut self, name: String, t: Table)
        requires
            old(self).ok(),
            t.wf(),
        ensures
            final(self).ok(),
            final(self).content() == old(self).content().with_table(name@, t@),
    {
        match self.place(name.as_str()) {
            Some(k) => {
                let ghost before = self.tables@;
                proof {
                    lemma_map_update(before, k as int, (name, t));
                }
                self.tables[k] = (name, t);
                proof {
                    assert(self.tables@ =~= before.update(k as int, (name, t)));
                }
            },
            None => {
                proof {
                    lemma_map_push(self.tables@, name, t);
                }
                self.tables.push((name, t));
            },
        }
    }

    /// Append a row to the table at `k`, unchecked.
    fn push_at(&mut self, k: usize, row: Vec<Value>)
        requires
            old(self).ok(),
            k < old(self).tables@.len(),
        ensures
            final(self).ok(),
            final(self).content() == old(self).content().with_row(
                PlacedRow { table: old(self).tables@[k as int].0@, row: views(row@) },
                true,
            ),
            names_of(final(self).tables@) == names_of(old(self).tables@),
    {
        let ghost before = self.tables@;
        let ghost name = before[k as int].0@;
        proof {
            lemma_place_unique(before, name, k as int);
        }
        self.tables[k].1.push_trusted(row);
        proof {
            let entry = self.tables@[k as int];
            assert(self.tables@ =~= before.update(k as int, entry));
            lemma_map_update(before, k as int, entry);
        }
    }

    /// Append a row, unchecked; a row for a missing table is dropped.
    fn push_row(&mut self, table: &str, row: Vec<Value>)
        requires
            old(self).ok(),
        ensures
            final(self).ok(),
            final(self).content() == old(self).content().with_row(
                PlacedRow { table: table@, row: views(row@) },
                true,
            ),
    {
        match self.place(table) {
            Some(k) => self.push_at(k, row),
            None => {},
        }
    }

    /// Append rows, unchecked.
    fn push_rows(&mut self, rows: Vec<(String, Vec<Value>)>)
        requires
            old(self).ok(),
        ensures
            final(self).ok(),
            final(self).content() == old(self).content().with_rows(placed_rows(rows@)),
    {
        let ghost all = placed_rows(rows@);
        let ghost start = self.content();
        proof {
            assert(all.take(0) =~= Seq::empty());
        }
        let mut i: usize = 0;
        while i < rows.len()
            invariant
                i <= rows@.len(),
                all == placed_rows(rows@),
                self.ok(),
                self.content() == start.with_rows(all.take(i as int)),
            decreases rows@.len() - i,
        {
            let row = duplicate_all(&rows[i].1);
            self.push_row(rows[i].0.as_str(), row);
            proof {
                assert(all.take(i + 1).drop_last() =~= all.take(i as int));
                assert(all.take(i + 1).last() == all[i as int]);
            }
            i = i + 1;
        }
        proof {
            assert(all.take(rows@.len() as int) =~= all);
        }
    }

    fn add_database(&mut self, name: String)
        requires
            old(self).ok(),
        ensures
            final(self).ok(),
            final(self).content() == (StoreV {
                databases: old(self).content().databases.insert(name@),
                ..old(self).content()
            }),
    {
        let ghost before = views(self.databases@);
        match has_name(&self.databases, name.as_str()) {
            Some(i) => {
                proof {
                    assert(before[i as int] == name@);
                    assert(name_set(before) =~= name_set(before).insert(name@));
                }
            },
            None => {
                self.databases.push(name);
                proof {
                    let after = before.push(name@);
                    assert(views(self.databases@) == after);
                    assert forall|x: Seq<char>| after.contains(x) == (before.contains(x) || x
                        == name@) by {
                        if before.contains(x) {
                            let j = before.index_of(x);
                            assert(after[j] == x);
                        }
                        assert(after[before.len() as int] == name@);
                        if after.contains(x) && x != name@ {
                            let j = after.index_of(x);
                            assert(before[j] == x);
                        }
                    }
                    assert(name_set(after) =~= name_set(before).insert(name@));
                    assert forall|i: int, j: int|
                        0 <= i < after.len() && 0 <= j < after.len() && i != j implies after[i]
                        != after[j] by {
                        if i < before.len() {
                            assert(before.contains(before[i]));
                        }
                        if j < before.len() {
                            assert(before.contains(before[j]));
                        }
                    }
                }
            },
        }
    }

    fn remove_database(&mut self, name: &str)
        requires
            old(self).ok(),
        ensures
            final(self).ok(),
            final(self).content() == (StoreV {
                databases: old(self).content().databases.remove(name@),
                ..old(self).content()
            }),
    {
        let ghost before = views(self.databases@);
        match has_name(&self.databases, name) {
            None => {
                proof {
                    assert(name_set(before) =~= name_set(before).remove(name@));
                }
            },
            Some(i) => {
                let _removed = self.databases.remove(i);
                proof {
                    let after = views(self.databases@);
                    assert(after =~= before.remove(i as int));
                    assert(before[i as int] == name@);
                    assert forall|x: Seq<char>| after.contains(x) == (before.contains(x) && x
                        != name@) by {
                        if after.contains(x) {
                            let j = after.index_of(x);
                            if j < i {
                                assert(before[j] == x);
                            } else {
                                assert(before[j + 1] == x);
                            }
                        }
                        if before.contains(x) && x != name@ {
                            let j = before.index_of(x);
                            if j < i {
                                assert(after[j] == x);
                            } else {
                                assert(after[j - 1] == x);
                            }
                        }
                    }
                    assert(name_set(after) =~= name_set(before).remove(name@));
                    assert forall|a: int, b: int|
                        0 <= a < after.len() && 0 <= b < after.len() && a != b implies after[a]
                        != after[b] by {
                        let x = if a < i {
                            a
                        } else {
                            a + 1
                        };
                        let y = if b < i {
                            b
                        } else {
                            b + 1
                        };
                        assert(before[x] == after[a]);
                        assert(before[y] == after[b]);
                    }
                }
            },
        }
    }

    /// Apply a logged entry, unchecked: it was checked when it was logged.
    pub fn apply_entry(&mut self, entry: Entry)
        requires
            old(self).ok(),
        ensures
            final(self).ok(),
            final(self).content() == old(self).content().apply(entry@),
    {
        match entry {
            Entry::CreateTable { table, columns, primary_key } => {
                let t = Table::new(columns, primary_key);
                self.put_table(table, t);
            },
            Entry::InsertRow { table, row } => self.push_row(table.as_str(), row),
            Entry::Transaction { rows } => self.push_rows(rows),
            Entry::CreateDatabase { name } => self.add_database(name),
            Entry::DropDatabase { name } => self.remove_database(name.as_str()),
        }
    }

    // ---------- checks ----------

    /// Whether a table can be created.
    pub fn check_create_table(
        &self,
        name: &str,
        columns: &[ColumnSchema],
        primary_key: Option<&str>,
    ) -> (r: Result<(), Error>)
        requires
            self.ok(),
        ensures
            ({
                let wanted = self.content().create_table(
                    name@,
                    views(columns@),
                    match primary_key {
                        Some(p) => Some(p@),
                        None => None,
                    },
                );
                match r {
                    Ok(()) => wanted is Ok,
                    Err(e) => wanted == Err::<StoreV, ErrorV>(e@),
                }
            }),
    {
        match primary_key {
            Some(pk) => match find_column(columns, pk) {
                Some(_) => {},
                None => {
                    return Err(
                        Error::Execution(cat3("Primary key column '", pk, "' is not defined")),
                    );
                },
            },
            None => {},
        }
        match self.place(name) {
            Some(_) => Err(Error::Execution(cat3("Table '", name, "' already exists"))),
            None => Ok(()),
        }
    }

    /// Whether one row can be inserted.
    pub fn check_insert_row(&self, table: &str, row: &Vec<Value>) -> (r: Result<(), Error>)
        requires
            self.ok(),
        ensures
            match r {
                Ok(()) => self.content().refusal(
                    PlacedRow { table: table@, row: views(row@) },
                ) is None,
                Err(e) => self.content().refusal(PlacedRow { table: table@, row: views(row@) })
                    == Some(e@),
            },
    {
        match self.place(table) {
            None => Err(no_table(table)),
            Some(k) => self.tables[k].1.check_insertable(table, row),
        }
    }

    /// Whether a database can be created: `false` when it is there already
    /// and that is no error.
    pub fn check_create_database(&self, name: &str, if_not_exists: bool) -> (r: Result<bool, Error>)
        requires
            self.ok(),
        ensures
            match r {
                Ok(new) => self.content().create_database(name@, if_not_exists) is Ok && new
                    == !self.content().databases.contains(name@),
                Err(e) => self.content().create_database(name@, if_not_exists) == Err::<
                    StoreV,
                    ErrorV,
                >(e@),
            },
    {
        match has_name(&self.databases, name) {
            None => Ok(true),
            Some(i) => {
                proof {
                    assert(views(self.databases@)[i as int] == name@);
                }
                if if_not_exists {
                    Ok(false)
                } else {
                    Err(
                        Error::Execution(
                            cat3("Can't create database '", name, "'; database exists"),
                        ),
                    )
                }
            },
        }
    }

    /// Whether a database can be dropped.
    pub fn check_drop_database(&self, name: &str, if_exists: bool) -> (r: Result<(), Error>)
        requires
            self.ok(),
        ensures
            match r {
                Ok(()) => self.content().drop_database(name@, if_exists) is Ok,
                Err(e) => self.content().drop_database(name@, if_exists) == Err::<StoreV, ErrorV>(
                    e@,
                ),
            },
    {
        match has_name(&self.databases, name) {
            Some(i) => {
                proof {
                    assert(views(self.databases@)[i as int] == name@);
                }
                Ok(())
            },
            None => {
                if if_exists {
                    Ok(())
                } else {
                    Err(
                        Error::Execution(
                            cat3("Can't drop database '", name, "'; database doesn't exist"),
                        ),
                    )
                }
            },
        }
    }
}

// ---------- batches ----------

/// Whether one of the first `n` of `rows` goes to `table` and holds `key` in
/// column `k`.
spec fn batch_has(rows: Seq<PlacedRow>, n: int, table: Seq<char>, k: int, key: ValueV) -> bool {
    exists|j: int|
        0 <= j < n && (#[trigger] rows[j]).table == table && cell(rows[j].row, k) == Some(key)
}

/// Whether `after` is `before` with the first `n` of `rows` appended, as far
/// as schemas and taken keys go.
spec fn extended(before: StoreV, after: StoreV, rows: Seq<PlacedRow>, n: int) -> bool {
    &&& forall|t: Seq<char>| #[trigger] after.tables.contains_key(t) == before.tables.contains_key(t)
    &&& forall|t: Seq<char>|
        #![trigger after.tables[t]]
        before.tables.contains_key(t) ==> after.tables[t].schema == before.tables[t].schema
    &&& forall|t: Seq<char>, key: ValueV|
        #![trigger after.tables[t].lookup(key)]
        before.tables.contains_key(t) && before.tables[t].schema.key_place() is Some ==> ((
        after.tables[t].lookup(key) is Some) == (before.tables[t].lookup(key) is Some || batch_has(
            rows,
            n,
            t,
            before.tables[t].schema.key_place()->0,
            key,
        )))
}

proof fn lemma_last_with_push(
    rows: Seq<Seq<ValueV>>,
    row: Seq<ValueV>,
    k: int,
    key: ValueV,
    n: int,
)
    requires
        0 <= n <= rows.len(),
    ensures
        last_with(rows.push(row), k, key, n) == last_with(rows, k, key, n),
    decreases n,
{
    if n > 0 {
        lemma_last_with_push(rows, row, k, key, n - 1);
    }
}

proof fn lemma_extended_step(before: StoreV, mid: StoreV, rows: Seq<PlacedRow>, n: int)
    requires
        0 <= n < rows.len(),
        extended(before, mid, rows, n),
        before.tables.contains_key(rows[n].table),
    ensures
        extended(before, mid.with_row(rows[n], true), rows, n + 1),
{
    let p = rows[n];
    let after = mid.with_row(p, true);
    assert(mid.tables.contains_key(p.table));
    assert forall|t: Seq<char>, key: ValueV|
        #![trigger after.tables[t].lookup(key)]
        before.tables.contains_key(t) && before.tables[t].schema.key_place() is Some implies ((
    after.tables[t].lookup(key) is Some) == (before.tables[t].lookup(key) is Some || batch_has(
        rows,
        n + 1,
        t,
        before.tables[t].schema.key_place()->0,
        key,
    ))) by {
        let k = before.tables[t].schema.key_place()->0;
        let was = mid.tables[t];
        assert(mid.tables.contains_key(t));
        assert(was.schema == before.tables[t].schema);
        assert((was.lookup(key) is Some) == (before.tables[t].lookup(key) is Some || batch_has(
            rows,
            n,
            t,
            k,
            key,
        )));
        if batch_has(rows, n, t, k, key) {
            let j = choose|j: int|
                0 <= j < n && (#[trigger] rows[j]).table == t && cell(rows[j].row, k) == Some(key);
            assert(rows[j].table == t);
            assert(batch_has(rows, n + 1, t, k, key));
        }
        if t == p.table {
            lemma_last_with_push(was.rows, p.row, k, key, was.rows.len() as int);
            if cell(p.row, k) == Some(key) {
                assert(rows[n].table == t);
                assert(batch_has(rows, n + 1, t, k, key));
            } else if batch_has(rows, n + 1, t, k, key) {
                let j = choose|j: int|
                    0 <= j < n + 1 && (#[trigger] rows[j]).table == t && cell(rows[j].row, k)
                        == Some(key);
                assert(j < n);
                assert(rows[j].table == t);
            }
        } else {
            if batch_has(rows, n + 1, t, k, key) {
                let j = choose|j: int|
                    0 <= j < n + 1 && (#[trigger] rows[j]).table == t && cell(rows[j].row, k)
                        == Some(key);
                assert(j < n);
                assert(rows[j].table == t);
            }
        }
    }
}

/// A failure early in a batch is the failure of the batch.
pub proof fn lemma_insert_each_stops(
    s: StoreV,
    rows: Seq<PlacedRow>,
    counted: bool,
    k: int,
    n: int,
)
    requires
        0 <= k <= n <= rows.len(),
        s.insert_each(rows, counted, k).1 is Some,
    ensures
        s.insert_each(rows, counted, n) == s.insert_each(rows, counted, k),
    decreases n,
{
    if k < n {
        lemma_insert_each_stops(s, rows, counted, k, n - 1);
    }
}

/// A batch that goes in is the batch appended.
pub proof fn lemma_insert_each_appends(s: StoreV, rows: Seq<PlacedRow>, n: int)
    requires
        0 <= n <= rows.len(),
        s.insert_each(rows, true, n).1 is None,
    ensures
        s.insert_each(rows, true, n).0 == s.with_rows(rows.take(n)),
    decreases n,
{
    if n > 0 {
        if s.insert_each(rows, true, n - 1).1 is Some {
            assert(false);
        }
        lemma_insert_each_appends(s, rows, n - 1);
        assert(rows.take(n).drop_last() =~= rows.take(n - 1));
        assert(rows.take(n).last() == rows[n - 1]);
    } else {
        assert(rows.take(0) =~= Seq::empty());
    }
}

impl InMemoryStorage {
    /// Whether one of `rows[..n]` takes the primary key, in column `k`, of
    /// `rows[n]` in the same table.
    fn clash(&self, rows: &[(String, Vec<Value>)], n: usize, k: usize) -> (r: bool)
        requires
            n < rows@.len(),
            k < rows@[n as int].1@.len(),
        ensures
            r == batch_has(
                placed_rows(rows@),
                n as int,
                rows@[n as int].0@,
                k as int,
                rows@[n as int].1@[k as int]@,
            ),
    {
        let ghost all = placed_rows(rows@);
        let mut j: usize = 0;
        while j < n
            invariant
                j <= n < rows@.len(),
                k < rows@[n as int].1@.len(),
                all == placed_rows(rows@),
                forall|i: int|
                    0 <= i < j ==> !((#[trigger] all[i]).table == rows@[n as int].0@ && cell(
                        all[i].row,
                        k as int,
                    ) == Some(rows@[n as int].1@[k as int]@)),
            decreases n - j,
        {
            proof {
                assert(all[j as int] == placed(rows@[j as int]));
            }
            if k < rows[j].1.len() && same_value(&rows[j].1[k], &rows[n].1[k]) && same_text(
                rows[j].0.as_str(),
                rows[n].0.as_str(),
            ) {
                proof {
                    assert(all[j as int].table == rows@[n as int].0@);
                }
                return true;
            }
            j = j + 1;
        }
        false
    }

    /// Whether a whole batch of rows can be inserted, keys repeated inside the
    /// batch counting as duplicates.
    pub fn check_insert_rows(&self, rows: &[(String, Vec<Value>)]) -> (r: Result<(), Error>)
        requires
            self.ok(),
        ensures
            ({
                let failure = self.content().insert_batch(placed_rows(rows@), false).1;
                match r {
                    Ok(()) => failure is None,
                    Err(e) => failure == Some(e@),
                }
            }),
            !io_failure(r),
    {
        let ghost all = placed_rows(rows@);
        let ghost start = self.content();
        let mut i: usize = 0;
        proof {
            assert(extended(start, start, all, 0));
        }
        while i < rows.len()
            invariant
                i <= rows@.len(),
                self.ok(),
                start == self.content(),
                all == placed_rows(rows@),
                start.insert_each(all, true, i as int).1 is None,
                extended(start, start.insert_each(all, true, i as int).0, all, i as int),
            decreases rows@.len() - i,
        {
            let ghost mid = start.insert_each(all, true, i as int).0;
            let ghost p = all[i as int];
            let table = rows[i].0.as_str();
            proof {
                assert(p == placed(rows@[i as int]));
                assert(start.insert_each(all, true, i + 1) == (match mid.refusal(p) {
                    Some(e) => (mid, Some(e)),
                    None => (mid.with_row(p, true), None),
                }));
            }
            match self.place(table) {
                None => {
                    proof {
                        assert(!mid.tables.contains_key(p.table));
                        lemma_insert_each_stops(start, all, true, i + 1, all.len() as int);
                    }
                    return Err(no_table(table));
                },
                Some(at) => {
                    proof {
                        assert(mid.tables.contains_key(p.table));
                        assert(mid.tables[p.table].schema == start.tables[p.table].schema);
                    }
                    match self.tables[at].1.check_insertable(table, &rows[i].1) {
                        Err(e) => {
                            proof {
                                let t = start.tables[p.table];
                                let m = mid.tables[p.table];
                                assert(t.refusal(p.table, p.row) == Some(e@));
                                if p.row.len() == t.schema.columns.len() {
                                    let k = t.schema.key_place()->0;
                                    assert(t.lookup(p.row[k]) is Some);
                                    assert(m.lookup(p.row[k]) is Some);
                                }
                                assert(m.refusal(p.table, p.row) == Some(e@));
                                lemma_insert_each_stops(start, all, true, i + 1, all.len() as int);
                            }
                            return Err(e);
                        },
                        Ok(()) => {},
                    }
                    let schema = self.tables[at].1.schema();
                    let key_place: Option<usize> = match &schema.primary_key {
                        Some(pk) => find_column(schema.columns.as_slice(), pk.as_str()),
                        None => None,
                    };
                    match key_place {
                        Some(k) => {
                            if self.clash(rows, i, k) {
                                proof {
                                    let m = mid.tables[p.table];
                                    assert(m.lookup(p.row[k as int]) is Some);
                                    lemma_insert_each_stops(
                                        start,
                                        all,
                                        true,
                                        i + 1,
                                        all.len() as int,
                                    );
                                }
                                let key = rows[i].1[k].shown_text();
                                return Err(
                                    Error::Execution(
                                        cat3(
                                            "Duplicate entry '",
                                            key.as_str(),
                                            "' for key 'PRIMARY'",
                                        ),
                                    ),
                                );
                            }
                            proof {
                                let m = mid.tables[p.table];
                                assert(m.lookup(p.row[k as int]) is None);
                                assert(mid.refusal(p) is None);
                            }
                        },
                        None => {
                            proof {
                                assert(mid.refusal(p) is None);
                            }
                        },
                    }
                    proof {
                        lemma_extended_step(start, mid, all, i as int);
                    }
                },
            }
            i = i + 1;
        }
        Ok(())
    }
}

// ---------- the storage interface ----------

/// The rows of `rows` that `filter` accepts, copied.
pub fn filter_rows<F: Fn(&[Value]) -> bool>(rows: &Vec<Vec<Value>>, filter: &F) -> (r: Vec<Vec<Value>>)
    requires
        forall|row: &[Value]| #[trigger] call_requires(*filter, (row,)),
    ensures
        filtered(rows_view(rows@), *filter, rows_view(r@)),
{
    let ghost all = rows_view(rows@);
    let ghost mut args: Seq<&[Value]> = Seq::empty();
    let ghost mut keep: Seq<bool> = Seq::empty();
    let mut out: Vec<Vec<Value>> = Vec::new();
    proof {
        assert(rows_view(out@) =~= Seq::empty());
    }
    let mut i: usize = 0;
    while i < rows.len()
        invariant
            i <= rows@.len(),
            all == rows_view(rows@),
            args.len() == i,
            keep.len() == i,
            forall|row: &[Value]| #[trigger] call_requires(*filter, (row,)),
            forall|j: int|
                0 <= j < i ==> views((#[trigger] args[j])@) == all[j] && call_ensures(
                    *filter,
                    (args[j],),
                    keep[j],
                ),
            rows_view(out@) == kept(all, keep, i as int),
        decreases rows@.len() - i,
    {
        let row = rows[i].as_slice();
        let accepted: bool = filter(row);
        let ghost so_far = keep;
        proof {
            args = args.push(row);
            keep = keep.push(accepted);
            lemma_kept_prefix(all, so_far, accepted, i as int);
            assert(views(row@) == all[i as int]);
        }
        if accepted {
            let copy = duplicate_all(&rows[i]);
            proof {
                assert(rows_view(out@.push(copy)) =~= rows_view(out@).push(views(copy@)));
            }
            out.push(copy);
        }
        i = i + 1;
    }
    proof {
        assert(args.len() == all.len());
        assert(kept(all, keep, all.len() as int) == rows_view(out@));
    }
    out
}

proof fn lemma_kept_prefix(rows: Seq<Seq<ValueV>>, keep: Seq<bool>, b: bool, n: int)
    requires
        0 <= n <= keep.len(),
        n <= rows.len(),
    ensures
        kept(rows, keep.push(b), n) == kept(rows, keep, n),
    decreases n,
{
    if n > 0 {
        lemma_kept_prefix(rows, keep, b, n - 1);
    }
}

impl Default for InMemoryStorage {
    fn default() -> (r: Self)
        ensures
            r.ok(),
            r.content() == StoreV::empty(),
    {
        InMemoryStorage::new()
    }
}

impl Storage for InMemoryStorage {
    open spec fn model(&self) -> StoreV {
        self.content()
    }

    open spec fn committed(&self) -> StoreV {
        self.content()
    }

    open spec fn held(&self) -> NamesV {
        Seq::empty()
    }

    open spec fn waiting(&self) -> PlacedRowsV {
        Seq::empty()
    }

    open spec fn wf(&self) -> bool {
        self.ok()
    }

    open spec fn buffered() -> bool {
        false
    }

    open spec fn volatile() -> bool {
        true
    }

    fn create_table(
        &mut self,
        name: &str,
        columns: Vec<ColumnSchema>,
        primary_key: Option<String>,
    ) -> (r: Result<(), Error>) {
        let pk: Option<&str> = match &primary_key {
            Some(p) => Some(p.as_str()),
            None => None,
        };
        self.check_create_table(name, columns.as_slice(), pk)?;
        let t = Table::new(columns, primary_key);
        self.put_table(name.to_string(), t);
        Ok(())
    }

    fn tables(&self) -> (r: Result<Vec<String>, Error>) {
        let mut names: Vec<String> = Vec::new();
        let mut i: usize = 0;
        while i < self.tables.len()
            invariant
                i <= self.tables@.len(),
                names@.len() == i,
                forall|j: int| 0 <= j < i ==> (#[trigger] names@[j])@ == self.tables@[j].0@,
            decreases self.tables@.len() - i,
        {
            names.push(self.tables[i].0.clone());
            i = i + 1;
        }
        proof {
            let all = views(names@);
            assert(all =~= names_of(self.tables@));
            assert forall|x: Seq<char>| all.contains(x) <==> #[trigger] self.content().tables.dom()
                .contains(x) by {
                lemma_place_from(self.tables@, x, 0);
                if all.contains(x) {
                    let j = all.index_of(x);
                    assert(self.tables@[j].0@ == x);
                }
                match place_of(self.tables@, x) {
                    Some(k) => assert(all[k] == x),
                    None => {},
                }
            }
        }
        Ok(names)
    }

    fn table_schema(&self, name: &str) -> (r: Result<Arc<TableSchema>, Error>) {
        match self.place(name) {
            Some(k) => Ok(self.tables[k].1.schema()),
            None => Err(no_table(name)),
        }
    }

    fn insert_row(&mut self, table: &str, row: Vec<Value>) -> (r: Result<(), Error>) {
        let ghost p = PlacedRow { table: table@, row: views(row@) };
        let ghost before = self.content();
        proof {
            let one = seq![p];
            assert(before.insert_each(one, true, 1) == (match before.refusal(p) {
                Some(e) => (before, Some(e)),
                None => (before.with_row(p, true), None),
            })) by {
                assert(before.insert_each(one, true, 0) == (before, None::<ErrorV>));
            }
        }
        self.check_insert_row(table, &row)?;
        self.push_row(table, row);
        Ok(())
    }

    fn insert_rows(&mut self, rows: Vec<(String, Vec<Value>)>) -> (r: Result<(), Error>) {
        let ghost all = placed_rows(rows@);
        let ghost before = self.content();
        self.check_insert_rows(rows.as_slice())?;
        proof {
            lemma_insert_each_appends(before, all, all.len() as int);
            assert(all.take(all.len() as int) =~= all);
        }
        self.push_rows(rows);
        Ok(())
    }

    fn scan(&self, table: &str) -> (r: Result<Vec<Vec<Value>>, Error>) {
        match self.place(table) {
            Some(k) => Ok(copy_rows(self.tables[k].1.rows())),
            None => Err(no_table(table)),
        }
    }

    fn scan_filtered<F: Fn(&[Value]) -> bool>(&self, table: &str, filter: F) -> (r: Result<
        Vec<Vec<Value>>,
        Error,
    >) {
        match self.place(table) {
            Some(k) => Ok(filter_rows(self.tables[k].1.rows(), &filter)),
            None => Err(no_table(table)),
        }
    }

    fn lookup_by_primary_key(&self, table: &str, key: &Value) -> (r: Result<
        Option<Vec<Value>>,
        Error,
    >) {
        match self.place(table) {
            Some(k) => Ok(self.tables[k].1.lookup(key)),
            None => Err(no_table(table)),
        }
    }

    fn next_auto_increment(&mut self, table: &str) -> (r: Result<i64, Error>) {
        match self.place(table) {
            None => Err(no_table(table)),
            Some(k) => match self.tables[k].1.next() {
                None => Err(
                    Error::Execution(cat3("Table '", table, "' has no AUTO_INCREMENT column")),
                ),
                Some(n) => {
                    let ghost before = self.tables@;
                    self.tables[k].1.advance();
                    proof {
                        let entry = self.tables@[k as int];
                        assert(self.tables@ =~= before.update(k as int, entry));
                        lemma_map_update(before, k as int, entry);
                        assert(self.content().tables.dom() =~= old(self).content().tables.dom());
                    }
                    Ok(n)
                },
            },
        }
    }

    fn create_database(&mut self, name: &str, if_not_exists: bool) -> (r: Result<(), Error>) {
        let _new = self.check_create_database(name, if_not_exists)?;
        self.add_database(name.to_string());
        Ok(())
    }

    fn drop_database(&mut self, name: &str, if_exists: bool) -> (r: Result<(), Error>) {
        self.check_drop_database(name, if_exists)?;
        self.remove_database(name);
        Ok(())
    }

    fn databases(&self) -> (r: Result<Vec<String>, Error>) {
        let names = duplicate_all(&self.databases);
        proof {
            assert forall|x: Seq<char>| views(names@).contains(x)
                <==> #[trigger] self.content().databases.contains(x) by {}
        }
        Ok(names)
    }
}

} // verus!