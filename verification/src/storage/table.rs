//! One table: its schema, its rows, and the index of its primary key.
use vstd::prelude::*;
use std::collections::HashMap;
use std::sync::Arc;

use crate::error::Error;
use crate::seqs::{duplicate_all, opt_view, views, Duplicate};
use crate::storage::log::{crc32, crc_of, enc_value, encode_value};
use crate::storage::model::{
    auto_from, cell, column_from, column_place, following, last_with, lemma_column_from, new_table,
    rows_view, TableV,
};
use crate::storage::value::{same_value, ColumnSchema, TableSchema, Value, ValueV};
use crate::text::{cat3, cat4, same_text, u64_text};

verus! {

broadcast use crate::seqs::group_views;

/// The bucket a key goes to in the index.
pub open spec fn bucket(v: ValueV) -> u64 {
    crc_of(enc_value(v)) as u64
}

fn bucket_of(v: &Value) -> (r: u64)
    ensures
        r == bucket(v@),
{
    crc32(encode_value(v).as_slice()) as u64
}

/// Whether the row at `i` is in the bucket of its key.
pub open spec fn indexed(rows: Seq<Seq<ValueV>>, k: int, index: Map<u64, Vec<usize>>, i: int) -> bool {
    match cell(rows[i], k) {
        Some(v) => index.contains_key(bucket(v)) && index[bucket(v)]@.contains(i as usize),
        None => true,
    }
}

/// Whether the buckets hold exactly the rows whose keys belong there, each in
/// insertion order.
pub open spec fn index_ok(rows: Seq<Seq<ValueV>>, k: int, index: Map<u64, Vec<usize>>) -> bool {
    &&& forall|i: int| 0 <= i < rows.len() ==> #[trigger] indexed(rows, k, index, i)
    &&& forall|h: u64, j: int|
        #![trigger index[h]@[j]]
        index.contains_key(h) && 0 <= j < index[h]@.len() ==> index[h]@[j] < rows.len()
    &&& forall|h: u64, a: int, b: int|
        #![trigger index[h]@[a], index[h]@[b]]
        index.contains_key(h) && 0 <= a < b < index[h]@.len() ==> index[h]@[a] < index[h]@[b]
}

/// A table held in memory.
#[derive(Debug)]
pub struct Table {
    schema: Arc<TableSchema>,
    /// Place of the primary-key column.
    key_place: Option<usize>,
    /// Place of the `AUTO_INCREMENT` column.
    auto_place: Option<usize>,
    rows: Vec<Vec<Value>>,
    /// Rows by the bucket of their primary key.
    index: HashMap<u64, Vec<usize>>,
    /// The next `AUTO_INCREMENT` value.
    next: i64,
}

/// A place as a number.
pub open spec fn as_place(p: Option<usize>) -> Option<int> {
    match p {
        Some(k) => Some(k as int),
        None => None,
    }
}

impl View for Table {
    type V = TableV;

    closed spec fn view(&self) -> TableV {
        TableV {
            schema: self.schema@,
            rows: rows_view(self.rows@),
            next: if self.auto_place is Some {
                Some(self.next as int)
            } else {
                None
            },
        }
    }
}

proof fn lemma_last_with(rows: Seq<Seq<ValueV>>, k: int, key: ValueV, n: int)
    requires
        0 <= n <= rows.len(),
    ensures
        match last_with(rows, k, key, n) {
            Some(i) => 0 <= i < n && cell(rows[i], k) == Some(key) && forall|j: int|
                i < j < n ==> cell(#[trigger] rows[j], k) != Some(key),
            None => forall|j: int| 0 <= j < n ==> cell(#[trigger] rows[j], k) != Some(key),
        },
    decreases n,
{
    if n > 0 && cell(rows[n - 1], k) != Some(key) {
        lemma_last_with(rows, k, key, n - 1);
    }
}

/// Where the first column called `name` stands.
pub fn find_column(columns: &[ColumnSchema], name: &str) -> (r: Option<usize>)
    ensures
        as_place(r) == column_place(views(columns@), name@),
        r matches Some(k) ==> k < columns@.len(),
{
    let ghost cs = views(columns@);
    let mut i: usize = 0;
    while i < columns.len()
        invariant
            i <= columns@.len(),
            cs == views(columns@),
            column_from(cs, name@, 0) == column_from(cs, name@, i as int),
        decreases columns@.len() - i,
    {
        if same_text(columns[i].name.as_str(), name) {
            proof {
                assert(cs[i as int].name == name@);
            }
            return Some(i);
        }
        proof {
            assert(cs[i as int].name != name@);
        }
        i = i + 1;
    }
    None
}

fn find_auto(columns: &[ColumnSchema]) -> (r: Option<usize>)
    ensures
        as_place(r) == auto_from(views(columns@), 0),
{
    let ghost cs = views(columns@);
    let mut i: usize = 0;
    while i < columns.len()
        invariant
            i <= columns@.len(),
            cs == views(columns@),
            auto_from(cs, 0) == auto_from(cs, i as int),
        decreases columns@.len() - i,
    {
        if columns[i].auto_increment {
            proof {
                assert(cs[i as int].auto_increment);
            }
            return Some(i);
        }
        proof {
            assert(!cs[i as int].auto_increment);
        }
        i = i + 1;
    }
    None
}

/// Copies of all rows.
pub fn copy_rows(rows: &Vec<Vec<Value>>) -> (r: Vec<Vec<Value>>)
    ensures
        rows_view(r@) == rows_view(rows@),
{
    let mut out: Vec<Vec<Value>> = Vec::new();
    let mut i: usize = 0;
    while i < rows.len()
        invariant
            i <= rows@.len(),
            out@.len() == i,
            forall|j: int| 0 <= j < i ==> views((#[trigger] out@[j])@) == views(rows@[j]@),
        decreases rows@.len() - i,
    {
        out.push(duplicate_all(&rows[i]));
        i = i + 1;
    }
    proof {
        assert(rows_view(out@) =~= rows_view(rows@));
    }
    out
}

impl Table {
    /// Whether the cached places and the index fit the schema and the rows.
    pub closed spec fn wf(&self) -> bool {
        &&& as_place(self.key_place) == self.schema@.key_place()
        &&& as_place(self.auto_place) == self.schema@.auto_place()
        &&& self.key_place matches Some(k) ==> index_ok(
            rows_view(self.rows@),
            k as int,
            self.index@,
        )
    }

    /// A table with no rows yet.
    pub fn new(columns: Vec<ColumnSchema>, primary_key: Option<String>) -> (r: Table)
        ensures
            r.wf(),
            r@ == new_table(views(columns@), opt_view(primary_key)),
    {
        let key_place = match &primary_key {
            Some(pk) => find_column(columns.as_slice(), pk.as_str()),
            None => None,
        };
        let auto_place = find_auto(columns.as_slice());
        let t = Table {
            schema: Arc::new(TableSchema { columns, primary_key }),
            key_place,
            auto_place,
            rows: Vec::new(),
            index: HashMap::new(),
            next: 1,
        };
        proof {
            assert(rows_view(t.rows@) =~= Seq::empty());
        }
        t
    }

    /// The schema, shared.
    pub fn schema(&self) -> (r: Arc<TableSchema>)
        ensures
            r@ == self@.schema,
    {
        self.schema.clone()
    }

    /// The number of columns.
    pub fn width(&self) -> (r: usize)
        ensures
            r == self@.schema.columns.len(),
    {
        self.schema.columns.len()
    }

    /// The rows.
    pub fn rows(&self) -> (r: &Vec<Vec<Value>>)
        ensures
            rows_view(r@) == self@.rows,
    {
        &self.rows
    }

    /// The next `AUTO_INCREMENT` value, if there is such a column.
    pub fn next(&self) -> (r: Option<i64>)
        ensures
            match r {
                Some(n) => self@.next == Some(n as int),
                None => self@.next is None,
            },
    {
        match self.auto_place {
            Some(_) => Some(self.next),
            None => None,
        }
    }

    /// Move the counter one on.
    pub fn advance(&mut self)
        requires
            old(self).wf(),
        ensures
            final(self).wf(),
            final(self)@ == (TableV {
                next: match old(self)@.next {
                    Some(n) => Some(following(n)),
                    None => None,
                },
                ..old(self)@
            }),
    {
        if self.next < i64::MAX {
            self.next = self.next + 1;
        }
    }

    /// Where the row stored under `key` stands.
    fn find(&self, key: &Value) -> (r: Option<usize>)
        requires
            self.wf(),
        ensures
            match (self@.schema.key_place(), r) {
                (Some(k), Some(i)) => last_with(self@.rows, k, key@, self@.rows.len() as int)
                    == Some(i as int) && i < self@.rows.len(),
                (Some(k), None) => last_with(
                    self@.rows,
                    k,
                    key@,
                    self@.rows.len() as int,
                ) is None,
                (None, _) => r is None,
            },
    {
        let k: usize = match self.key_place {
            Some(k) => k,
            None => {
                return None;
            },
        };
        let ghost rows = self@.rows;
        let _count: usize = self.rows.len();
        let h: u64 = bucket_of(key);
        proof {
            lemma_last_with(rows, k as int, key@, rows.len() as int);
        }
        match self.index.get(&h) {
            None => {
                proof {
                    assert forall|j: int| 0 <= j < rows.len() implies cell(
                        #[trigger] rows[j],
                        k as int,
                    ) != Some(key@) by {
                        assert(indexed(rows, k as int, self.index@, j));
                    }
                }
                None
            },
            Some(places) => {
                let mut n: usize = places.len();
                while n > 0
                    invariant
                        n <= places@.len(),
                        self.wf(),
                        self.key_place == Some(k),
                        rows == self@.rows,
                        rows == rows_view(self.rows@),
                        rows.len() <= usize::MAX,
                        h == bucket(key@),
                        self.index@.contains_key(h),
                        *places == self.index@[h],
                        forall|j: int|
                            n <= j < places@.len() ==> cell(
                                rows[(#[trigger] places@[j]) as int],
                                k as int,
                            ) != Some(key@),
                        self@.schema.key_place() == Some(k as int),
                        match last_with(rows, k as int, key@, rows.len() as int) {
                            Some(i) => 0 <= i < rows.len() && cell(rows[i], k as int) == Some(key@)
                                && forall|j: int|
                                i < j < rows.len() ==> cell(#[trigger] rows[j], k as int) != Some(
                                    key@,
                                ),
                            None => forall|j: int|
                                0 <= j < rows.len() ==> cell(#[trigger] rows[j], k as int) != Some(
                                    key@,
                                ),
                        },
                    decreases n,
                {
                    n = n - 1;
                    let i: usize = places[n];
                    proof {
                        assert(self.index@[h]@[n as int] < rows.len());
                        assert(rows[i as int] == views(self.rows@[i as int]@));
                    }
                    if k < self.rows[i].len() && same_value(&self.rows[i][k], key) {
                        proof {
                            assert(cell(rows[i as int], k as int) == Some(key@));
                            let last = last_with(rows, k as int, key@, rows.len() as int)->0;
                            assert(indexed(rows, k as int, self.index@, last));
                            let at = places@.index_of(last as usize);
                            assert(places@[at] == last as usize);
                            if at < n {
                                assert(self.index@[h]@[at] < self.index@[h]@[n as int]);
                            }
                        }
                        return Some(i);
                    }
                }
                proof {
                    assert forall|j: int| 0 <= j < rows.len() implies cell(
                        #[trigger] rows[j],
                        k as int,
                    ) != Some(key@) by {
                        assert(indexed(rows, k as int, self.index@, j));
                        if cell(rows[j], k as int) == Some(key@) {
                            let at = places@.index_of(j as usize);
                            assert(places@[at] == j as usize);
                        }
                    }
                }
                None
            },
        }
    }

    /// The row stored under `key`.
    pub fn lookup(&self, key: &Value) -> (r: Option<Vec<Value>>)
        requires
            self.wf(),
        ensures
            match r {
                Some(v) => self@.lookup(key@) == Some(views(v@)),
                None => self@.lookup(key@) is None,
            },
    {
        match self.find(key) {
            Some(i) => Some(duplicate_all(&self.rows[i])),
            None => None,
        }
    }

    /// Whether `row` can be inserted: it has the right number of values, and
    /// its primary key is not taken.
    pub fn check_insertable(&self, name: &str, row: &Vec<Value>) -> (r: Result<(), Error>)
        requires
            self.wf(),
        ensures
            match r {
                Ok(()) => self@.refusal(name@, views(row@)) is None,
                Err(e) => self@.refusal(name@, views(row@)) == Some(e@),
            },
    {
        let width: usize = self.width();
        if row.len() != width {
            let head = cat3("Column count doesn't match value count: table '", name, "' has ");
            return Err(
                Error::Execution(
                    cat4(
                        head.as_str(),
                        u64_text(width as u64).as_str(),
                        " column(s), got ",
                        u64_text(row.len() as u64).as_str(),
                    ),
                ),
            );
        }
        proof {
            match self.schema@.primary_key {
                Some(pk) => lemma_column_from(self.schema@.columns, pk, 0),
                None => {},
            }
        }
        match self.key_place {
            None => Ok(()),
            Some(k) => match self.find(&row[k]) {
                None => Ok(()),
                Some(_) => {
                    let key = row[k].shown_text();
                    Err(
                        Error::Execution(
                            cat3("Duplicate entry '", key.as_str(), "' for key 'PRIMARY'"),
                        ),
                    )
                },
            },
        }
    }

    /// Append a row without checking it.
    pub fn push_trusted(&mut self, row: Vec<Value>)
        requires
            old(self).wf(),
        ensures
            final(self).wf(),
            final(self)@ == old(self)@.with_row(views(row@), true),
    {
        let ghost before = rows_view(self.rows@);
        let ghost new_row = views(row@);
        let ghost after = before.push(new_row);
        let at: usize = self.rows.len();
        match self.key_place {
            Some(k) => {
                if k < row.len() {
                    let h: u64 = bucket_of(&row[k]);
                    let ghost old_index = self.index@;
                    let mut places: Vec<usize> = match self.index.remove(&h) {
                        Some(p) => p,
                        None => Vec::new(),
                    };
                    let ghost old_places = places@;
                    places.push(at);
                    let ghost new_places = places;
                    proof {
                        assert(new_places@.drop_last() =~= old_places);
                    }
                    self.index.insert(h, places);
                    proof {
                        assert(self.index@ =~= old_index.insert(h, new_places));
                        lemma_index_push(before, k as int, old_index, new_row, h, new_places);
                    }
                } else {
                    proof {
                        lemma_index_skip(before, k as int, self.index@, new_row);
                    }
                }
            },
            None => {},
        }
        match self.auto_place {
            Some(k) => {
                if k < row.len() {
                    match row[k] {
                        Value::Int(v) => {
                            let past: i64 = if v < i64::MAX {
                                v + 1
                            } else {
                                v
                            };
                            if past > self.next {
                                self.next = past;
                            }
                        },
                        _ => {},
                    }
                }
            },
            None => {},
        }
        self.rows.push(row);
        proof {
            assert(rows_view(self.rows@) =~= after);
        }
    }
}

proof fn lemma_index_push(
    rows: Seq<Seq<ValueV>>,
    k: int,
    index: Map<u64, Vec<usize>>,
    row: Seq<ValueV>,
    h: u64,
    places: Vec<usize>,
)
    requires
        index_ok(rows, k, index),
        rows.len() <= usize::MAX,
        cell(row, k) is Some,
        h == bucket(cell(row, k)->0),
        places@.len() > 0,
        places@.last() == rows.len(),
        places@.drop_last() == (if index.contains_key(h) {
            index[h]@
        } else {
            Seq::empty()
        }),
    ensures
        index_ok(rows.push(row), k, index.insert(h, places)),
{
    let new_rows = rows.push(row);
    let new_index = index.insert(h, places);
    let old = places@.drop_last();
    assert forall|i: int| 0 <= i < new_rows.len() implies #[trigger] indexed(
        new_rows,
        k,
        new_index,
        i,
    ) by {
        if i < rows.len() {
            assert(indexed(rows, k, index, i));
            assert(new_rows[i] == rows[i]);
            match cell(rows[i], k) {
                Some(v) => {
                    if bucket(v) == h {
                        let at = old.index_of(i as usize);
                        assert(old[at] == i as usize);
                        assert(places@[at] == i as usize);
                    }
                },
                None => {},
            }
        } else {
            assert(places@[places@.len() - 1] == i as usize);
        }
    }
    assert forall|g: u64, j: int|
        #![trigger new_index[g]@[j]]
        new_index.contains_key(g) && 0 <= j < new_index[g]@.len() implies new_index[g]@[j]
        < new_rows.len() by {
        if g == h {
            if j < old.len() {
                assert(old[j] == places@[j]);
                assert(index[h]@[j] < rows.len());
            }
        } else {
            assert(index[g]@[j] < rows.len());
        }
    }
    assert forall|g: u64, a: int, b: int|
        #![trigger new_index[g]@[a], new_index[g]@[b]]
        new_index.contains_key(g) && 0 <= a < b < new_index[g]@.len() implies new_index[g]@[a]
        < new_index[g]@[b] by {
        if g == h {
            assert(a < old.len());
            assert(old[a] == places@[a]);
            assert(index[h]@[a] < rows.len());
            if b < old.len() {
                assert(old[b] == places@[b]);
                assert(index[h]@[a] < index[h]@[b]);
            }
        } else {
            assert(index[g]@[a] < index[g]@[b]);
        }
    }
}

proof fn lemma_index_skip(
    rows: Seq<Seq<ValueV>>,
    k: int,
    index: Map<u64, Vec<usize>>,
    row: Seq<ValueV>,
)
    requires
        index_ok(rows, k, index),
        cell(row, k) is None,
    ensures
        index_ok(rows.push(row), k, index),
{
    let new_rows = rows.push(row);
    assert forall|i: int| 0 <= i < new_rows.len() implies #[trigger] indexed(
        new_rows,
        k,
        index,
        i,
    ) by {
        if i < rows.len() {
            assert(indexed(rows, k, index, i));
            assert(new_rows[i] == rows[i]);
        }
    }
    assert forall|g: u64, j: int|
        #![trigger index[g]@[j]]
        index.contains_key(g) && 0 <= j < index[g]@.len() implies index[g]@[j]
        < new_rows.len() by {
        assert(index[g]@[j] < rows.len());
    }
}

} // verus!
