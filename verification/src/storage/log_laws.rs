//! What the log's format guarantees: entries survive encoding, records survive
//! framing, an interrupted write loses nothing before it, and damage to a
//! byte never goes unnoticed.
use vstd::prelude::*;
use vstd::utf8::{encode_utf8, encode_utf8_decode_utf8, encode_utf8_valid_utf8};

use crate::bytes::{le, le_value, lemma_le_len, lemma_le_round_trip, lemma_pow256, unsigned64};
use crate::error::ErrorV;
use crate::storage::log::{
    after_entries, checksum, column_flags, crc_bit, crc_bits, crc_of, crc_register, damaged,
    dec_byte, dec_column, dec_columns, dec_create_table, dec_entry, dec_i64, dec_placed,
    dec_placed_rows, dec_text, dec_u32, dec_value, dec_values, enc_column, enc_columns, enc_entry,
    enc_placed, enc_placed_rows, enc_primary_key, enc_text, enc_type, enc_value, enc_values, frame,
    record_at, replay_from, EntryV, PlacedRow, RecordV,
};
use crate::storage::value::{ColumnSchemaV, ColumnType, ValueV};

verus! {

// ---------- entries survive encoding ----------

/// Whether `part` stands at `pos` in `b`.
pub open spec fn stands_at(b: Seq<u8>, pos: int, part: Seq<u8>) -> bool {
    0 <= pos && pos + part.len() <= b.len() && b.subrange(pos, pos + part.len()) == part
}

proof fn lemma_stands_split(b: Seq<u8>, pos: int, x: Seq<u8>, y: Seq<u8>)
    requires
        stands_at(b, pos, x + y),
    ensures
        stands_at(b, pos, x),
        stands_at(b, pos + x.len(), y),
{
    let whole = b.subrange(pos, pos + (x + y).len());
    assert(b.subrange(pos, pos + x.len()) =~= x) by {
        assert forall|i: int| 0 <= i < x.len() implies b.subrange(pos, pos + x.len())[i] == x[i] by {
            assert(whole[i] == (x + y)[i]);
        }
    }
    assert(b.subrange(pos + x.len(), pos + x.len() + y.len()) =~= y) by {
        assert forall|i: int| 0 <= i < y.len() implies b.subrange(
            pos + x.len(),
            pos + x.len() + y.len(),
        )[i] == y[i] by {
            assert(whole[x.len() + i] == (x + y)[x.len() + i]);
        }
    }
}

/// Whether text is short enough for its length field.
pub open spec fn text_fits(s: Seq<char>) -> bool {
    encode_utf8(s).len() < 0x1_0000_0000
}

/// Whether a value's text, if any, is short enough.
pub open spec fn value_fits(v: ValueV) -> bool {
    match v {
        ValueV::Varchar(s) => text_fits(s),
        ValueV::Date(s) => text_fits(s),
        _ => true,
    }
}

/// Whether a row's values are few and short enough.
pub open spec fn placed_fits(p: PlacedRow) -> bool {
    &&& text_fits(p.table)
    &&& p.row.len() < 0x1_0000_0000
    &&& forall|i: int| 0 <= i < p.row.len() ==> value_fits(#[trigger] p.row[i])
}

/// Whether everything in an entry is within what its length fields can hold.
pub open spec fn entry_fits(e: EntryV) -> bool {
    match e {
        EntryV::CreateTable { table, columns, primary_key } => {
            &&& text_fits(table)
            &&& primary_key matches Some(pk) ==> text_fits(pk)
            &&& columns.len() < 0x1_0000_0000
            &&& forall|i: int| 0 <= i < columns.len() ==> text_fits((#[trigger] columns[i]).name)
        },
        EntryV::InsertRow { placed } => placed_fits(placed),
        EntryV::Transaction { rows } => {
            &&& rows.len() < 0x1_0000_0000
            &&& forall|i: int| 0 <= i < rows.len() ==> placed_fits(#[trigger] rows[i])
        },
        EntryV::CreateDatabase { name } => text_fits(name),
        EntryV::DropDatabase { name } => text_fits(name),
    }
}

proof fn lemma_u32(b: Seq<u8>, pos: int, n: nat)
    requires
        n < 0x1_0000_0000,
        stands_at(b, pos, le(n, 4)),
    ensures
        le(n, 4).len() == 4,
        dec_u32(b, pos) == Ok::<(nat, int), ErrorV>((n, pos + 4)),
{
    lemma_pow256();
    lemma_le_round_trip(n, 4);
}

proof fn lemma_i64(b: Seq<u8>, pos: int, n: i64)
    requires
        stands_at(b, pos, le(unsigned64(n as int), 8)),
    ensures
        le(unsigned64(n as int), 8).len() == 8,
        dec_i64(b, pos) == Ok::<(i64, int), ErrorV>((n, pos + 8)),
{
    lemma_pow256();
    lemma_le_round_trip(unsigned64(n as int), 8);
}

proof fn lemma_byte(b: Seq<u8>, pos: int, x: u8)
    requires
        stands_at(b, pos, seq![x]),
    ensures
        dec_byte(b, pos) == Ok::<(u8, int), ErrorV>((x, pos + 1)),
{
    assert(b.subrange(pos, pos + 1)[0] == x);
}

proof fn lemma_text(b: Seq<u8>, pos: int, s: Seq<char>)
    requires
        text_fits(s),
        b.len() <= usize::MAX,
        stands_at(b, pos, enc_text(s)),
    ensures
        dec_text(b, pos) == Ok::<(Seq<char>, int), ErrorV>((s, pos + enc_text(s).len())),
{
    let bytes = encode_utf8(s);
    lemma_stands_split(b, pos, le(bytes.len(), 4), bytes);
    lemma_u32(b, pos, bytes.len());
    encode_utf8_valid_utf8(s);
    encode_utf8_decode_utf8(s);
}

proof fn lemma_value(b: Seq<u8>, pos: int, v: ValueV)
    requires
        value_fits(v),
        b.len() <= usize::MAX,
        stands_at(b, pos, enc_value(v)),
    ensures
        dec_value(b, pos) == Ok::<(ValueV, int), ErrorV>((v, pos + enc_value(v).len())),
{
    match v {
        ValueV::Null => {
            lemma_byte(b, pos, 0);
        },
        ValueV::Int(n) => {
            lemma_stands_split(b, pos, seq![1u8], le(unsigned64(n as int), 8));
            lemma_byte(b, pos, 1);
            lemma_i64(b, pos + 1, n);
        },
        ValueV::Varchar(s) => {
            lemma_stands_split(b, pos, seq![2u8], enc_text(s));
            lemma_byte(b, pos, 2);
            lemma_text(b, pos + 1, s);
        },
        ValueV::Decimal(n, scale) => {
            lemma_stands_split(b, pos, seq![3u8] + le(unsigned64(n as int), 8), seq![scale]);
            lemma_stands_split(b, pos, seq![3u8], le(unsigned64(n as int), 8));
            lemma_byte(b, pos, 3);
            lemma_i64(b, pos + 1, n);
            lemma_byte(b, pos + 9, scale);
        },
        ValueV::Date(s) => {
            lemma_stands_split(b, pos, seq![4u8], enc_text(s));
            lemma_byte(b, pos, 4);
            lemma_text(b, pos + 1, s);
        },
    }
}

proof fn lemma_values(b: Seq<u8>, pos: int, vs: Seq<ValueV>)
    requires
        forall|i: int| 0 <= i < vs.len() ==> value_fits(#[trigger] vs[i]),
        b.len() <= usize::MAX,
        stands_at(b, pos, enc_values(vs)),
    ensures
        dec_values(b, pos, vs.len()) == Ok::<(Seq<ValueV>, int), ErrorV>(
            (vs, pos + enc_values(vs).len()),
        ),
    decreases vs.len(),
{
    if vs.len() == 0 {
        assert(vs =~= Seq::empty());
    } else {
        let front = vs.drop_last();
        lemma_stands_split(b, pos, enc_values(front), enc_value(vs.last()));
        assert forall|i: int| 0 <= i < front.len() implies value_fits(#[trigger] front[i]) by {
            assert(value_fits(vs[i]));
        }
        lemma_values(b, pos, front);
        assert(value_fits(vs[vs.len() - 1]));
        lemma_value(b, pos + enc_values(front).len(), vs.last());
        assert(front.push(vs.last()) =~= vs);
    }
}

proof fn lemma_placed(b: Seq<u8>, pos: int, p: PlacedRow)
    requires
        placed_fits(p),
        b.len() <= usize::MAX,
        stands_at(b, pos, enc_placed(p)),
    ensures
        dec_placed(b, pos) == Ok::<(PlacedRow, int), ErrorV>((p, pos + enc_placed(p).len())),
{
    lemma_stands_split(b, pos, enc_text(p.table) + le(p.row.len(), 4), enc_values(p.row));
    lemma_stands_split(b, pos, enc_text(p.table), le(p.row.len(), 4));
    lemma_text(b, pos, p.table);
    lemma_u32(b, pos + enc_text(p.table).len(), p.row.len());
    lemma_values(b, pos + enc_text(p.table).len() + 4, p.row);
}

proof fn lemma_placed_rows(b: Seq<u8>, pos: int, rows: Seq<PlacedRow>)
    requires
        forall|i: int| 0 <= i < rows.len() ==> placed_fits(#[trigger] rows[i]),
        b.len() <= usize::MAX,
        stands_at(b, pos, enc_placed_rows(rows)),
    ensures
        dec_placed_rows(b, pos, rows.len()) == Ok::<(Seq<PlacedRow>, int), ErrorV>(
            (rows, pos + enc_placed_rows(rows).len()),
        ),
    decreases rows.len(),
{
    if rows.len() == 0 {
        assert(rows =~= Seq::empty());
    } else {
        let front = rows.drop_last();
        lemma_stands_split(b, pos, enc_placed_rows(front), enc_placed(rows.last()));
        assert forall|i: int| 0 <= i < front.len() implies placed_fits(#[trigger] front[i]) by {
            assert(placed_fits(rows[i]));
        }
        lemma_placed_rows(b, pos, front);
        assert(placed_fits(rows[rows.len() - 1]));
        lemma_placed(b, pos + enc_placed_rows(front).len(), rows.last());
        assert(front.push(rows.last()) =~= rows);
    }
}

proof fn lemma_column(b: Seq<u8>, pos: int, c: ColumnSchemaV)
    requires
        text_fits(c.name),
        b.len() <= usize::MAX,
        stands_at(b, pos, enc_column(c)),
    ensures
        dec_column(b, pos) == Ok::<(ColumnSchemaV, int), ErrorV>((c, pos + enc_column(c).len())),
{
    let flags = column_flags(c);
    lemma_stands_split(b, pos, enc_text(c.name) + enc_type(c.column_type), seq![flags]);
    lemma_stands_split(b, pos, enc_text(c.name), enc_type(c.column_type));
    lemma_text(b, pos, c.name);
    let at = pos + enc_text(c.name).len();
    let t = enc_type(c.column_type);
    match c.column_type {
        ColumnType::Int => {
            lemma_byte(b, at, 0);
        },
        ColumnType::Varchar => {
            lemma_byte(b, at, 1);
        },
        ColumnType::Date => {
            lemma_byte(b, at, 3);
        },
        ColumnType::Decimal(scale) => {
            assert(t =~= seq![2u8] + seq![scale]);
            lemma_stands_split(b, at, seq![2u8], seq![scale]);
            lemma_byte(b, at, 2);
            lemma_byte(b, at + 1, scale);
        },
    }
    lemma_byte(b, at + t.len(), flags);
}

proof fn lemma_columns(b: Seq<u8>, pos: int, cs: Seq<ColumnSchemaV>)
    requires
        forall|i: int| 0 <= i < cs.len() ==> text_fits((#[trigger] cs[i]).name),
        b.len() <= usize::MAX,
        stands_at(b, pos, enc_columns(cs)),
    ensures
        dec_columns(b, pos, cs.len()) == Ok::<(Seq<ColumnSchemaV>, int), ErrorV>(
            (cs, pos + enc_columns(cs).len()),
        ),
    decreases cs.len(),
{
    if cs.len() == 0 {
        assert(cs =~= Seq::empty());
    } else {
        let front = cs.drop_last();
        lemma_stands_split(b, pos, enc_columns(front), enc_column(cs.last()));
        assert forall|i: int| 0 <= i < front.len() implies text_fits(
            (#[trigger] front[i]).name,
        ) by {
            assert(text_fits(cs[i].name));
        }
        lemma_columns(b, pos, front);
        assert(text_fits(cs[cs.len() - 1].name));
        lemma_column(b, pos + enc_columns(front).len(), cs.last());
        assert(front.push(cs.last()) =~= cs);
    }
}

proof fn lemma_create_table(
    b: Seq<u8>,
    pos: int,
    table: Seq<char>,
    columns: Seq<ColumnSchemaV>,
    primary_key: Option<Seq<char>>,
)
    requires
        entry_fits(EntryV::CreateTable { table, columns, primary_key }),
        b.len() <= usize::MAX,
        stands_at(
            b,
            pos,
            enc_text(table) + enc_primary_key(primary_key) + le(columns.len(), 4) + enc_columns(
                columns,
            ),
        ),
    ensures
        dec_create_table(b, pos) matches Ok((e, _)) && e == (EntryV::CreateTable {
            table,
            columns,
            primary_key,
        }),
{
    let t = enc_text(table);
    let k = enc_primary_key(primary_key);
    let n = le(columns.len(), 4);
    let c = enc_columns(columns);
    lemma_stands_split(b, pos, t + k + n, c);
    lemma_stands_split(b, pos, t + k, n);
    lemma_stands_split(b, pos, t, k);
    lemma_text(b, pos, table);
    let at = pos + t.len();
    match primary_key {
        Some(pk) => {
            lemma_stands_split(b, at, seq![1u8], enc_text(pk));
            lemma_byte(b, at, 1);
            lemma_text(b, at + 1, pk);
        },
        None => {
            lemma_byte(b, at, 0);
        },
    }
    lemma_u32(b, at + k.len(), columns.len());
    lemma_columns(b, at + k.len() + 4, columns);
}

proof fn lemma_entry_create(
    table: Seq<char>,
    columns: Seq<ColumnSchemaV>,
    primary_key: Option<Seq<char>>,
)
    requires
        entry_fits(EntryV::CreateTable { table, columns, primary_key }),
        enc_entry(EntryV::CreateTable { table, columns, primary_key }).len() <= usize::MAX,
    ensures
        dec_entry(enc_entry(EntryV::CreateTable { table, columns, primary_key })) == Ok::<
            EntryV,
            ErrorV,
        >(EntryV::CreateTable { table, columns, primary_key }),
{
    reveal(enc_entry);
    reveal(dec_entry);
    let b = enc_entry(EntryV::CreateTable { table, columns, primary_key });
    assert(b.subrange(0, b.len() as int) =~= b);
    let rest = enc_text(table) + enc_primary_key(primary_key) + le(columns.len(), 4) + enc_columns(
        columns,
    );
    assert(b =~= seq![1u8] + rest);
    lemma_stands_split(b, 0, seq![1u8], rest);
    lemma_byte(b, 0, 1);
    lemma_create_table(b, 1, table, columns, primary_key);
}

proof fn lemma_entry_row(placed: PlacedRow)
    requires
        entry_fits(EntryV::InsertRow { placed }),
        enc_entry(EntryV::InsertRow { placed }).len() <= usize::MAX,
    ensures
        dec_entry(enc_entry(EntryV::InsertRow { placed })) == Ok::<EntryV, ErrorV>(
            EntryV::InsertRow { placed },
        ),
{
    reveal(enc_entry);
    reveal(dec_entry);
    let b = enc_entry(EntryV::InsertRow { placed });
    assert(b.subrange(0, b.len() as int) =~= b);
    lemma_stands_split(b, 0, seq![2u8], enc_placed(placed));
    lemma_byte(b, 0, 2);
    lemma_placed(b, 1, placed);
}

proof fn lemma_entry_batch(rows: Seq<PlacedRow>)
    requires
        entry_fits(EntryV::Transaction { rows }),
        enc_entry(EntryV::Transaction { rows }).len() <= usize::MAX,
    ensures
        dec_entry(enc_entry(EntryV::Transaction { rows })) == Ok::<EntryV, ErrorV>(
            EntryV::Transaction { rows },
        ),
{
    reveal(enc_entry);
    reveal(dec_entry);
    let b = enc_entry(EntryV::Transaction { rows });
    assert(b.subrange(0, b.len() as int) =~= b);
    assert(b =~= seq![3u8] + (le(rows.len(), 4) + enc_placed_rows(rows)));
    lemma_stands_split(b, 0, seq![3u8], le(rows.len(), 4) + enc_placed_rows(rows));
    lemma_stands_split(b, 1, le(rows.len(), 4), enc_placed_rows(rows));
    lemma_byte(b, 0, 3);
    lemma_u32(b, 1, rows.len());
    lemma_placed_rows(b, 5, rows);
}

proof fn lemma_entry_create_database(name: Seq<char>)
    requires
        entry_fits(EntryV::CreateDatabase { name }),
        enc_entry(EntryV::CreateDatabase { name }).len() <= usize::MAX,
    ensures
        dec_entry(enc_entry(EntryV::CreateDatabase { name })) == Ok::<EntryV, ErrorV>(
            EntryV::CreateDatabase { name },
        ),
{
    reveal(enc_entry);
    reveal(dec_entry);
    let b = enc_entry(EntryV::CreateDatabase { name });
    assert(b.subrange(0, b.len() as int) =~= b);
    lemma_stands_split(b, 0, seq![4u8], enc_text(name));
    lemma_byte(b, 0, 4);
    lemma_text(b, 1, name);
}

proof fn lemma_entry_drop_database(name: Seq<char>)
    requires
        entry_fits(EntryV::DropDatabase { name }),
        enc_entry(EntryV::DropDatabase { name }).len() <= usize::MAX,
    ensures
        dec_entry(enc_entry(EntryV::DropDatabase { name })) == Ok::<EntryV, ErrorV>(
            EntryV::DropDatabase { name },
        ),
{
    reveal(enc_entry);
    reveal(dec_entry);
    let b = enc_entry(EntryV::DropDatabase { name });
    assert(b.subrange(0, b.len() as int) =~= b);
    lemma_stands_split(b, 0, seq![5u8], enc_text(name));
    lemma_byte(b, 0, 5);
    lemma_text(b, 1, name);
}

/// Decoding an encoded entry gives the entry back.
pub proof fn law_entry_round_trip(e: EntryV)
    requires
        entry_fits(e),
        enc_entry(e).len() <= usize::MAX,
    ensures
        dec_entry(enc_entry(e)) == Ok::<EntryV, ErrorV>(e),
{
    match e {
        EntryV::CreateTable { table, columns, primary_key } => lemma_entry_create(
            table,
            columns,
            primary_key,
        ),
        EntryV::InsertRow { placed } => lemma_entry_row(placed),
        EntryV::Transaction { rows } => lemma_entry_batch(rows),
        EntryV::CreateDatabase { name } => lemma_entry_create_database(name),
        EntryV::DropDatabase { name } => lemma_entry_drop_database(name),
    }
}

// ---------- records survive framing ----------

/// Whether an entry can be written as one record.
pub open spec fn recordable(e: EntryV) -> bool {
    entry_fits(e) && enc_entry(e).len() < 0x1_0000_0000 && enc_entry(e).len() <= usize::MAX
}

/// The log that holds the entries `es`, one record each.
pub open spec fn log_of(es: Seq<EntryV>) -> Seq<u8>
    decreases es.len(),
{
    if es.len() == 0 {
        Seq::empty()
    } else {
        frame(enc_entry(es[0])) + log_of(es.drop_first())
    }
}

/// A log goes on where another ends.
pub proof fn lemma_log_of_concat(a: Seq<EntryV>, b: Seq<EntryV>)
    ensures
        log_of(a + b) == log_of(a) + log_of(b),
    decreases a.len(),
{
    if a.len() == 0 {
        assert(a + b =~= b);
        assert(log_of(a) + log_of(b) =~= log_of(b));
    } else {
        lemma_log_of_concat(a.drop_first(), b);
        assert((a + b).drop_first() =~= a.drop_first() + b);
        assert(log_of(a + b) =~= log_of(a) + log_of(b));
    }
}

/// A log of one entry is its record.
pub proof fn lemma_log_of_one(e: EntryV)
    ensures
        log_of(seq![e]) == frame(enc_entry(e)),
{
    let one = seq![e];
    assert(one.drop_first() =~= Seq::empty());
    assert(log_of(one.drop_first()) =~= Seq::<u8>::empty());
    assert(log_of(one) =~= frame(enc_entry(e)));
}

proof fn lemma_frame_parts(payload: Seq<u8>)
    requires
        payload.len() < 0x1_0000_0000,
    ensures
        frame(payload).len() == 8 + payload.len(),
        le_value(frame(payload).subrange(0, 4)) == payload.len(),
        le_value(frame(payload).subrange(4, 8)) == checksum(payload.len(), payload) as nat,
        frame(payload).subrange(8, 8int + payload.len()) == payload,
{
    lemma_pow256();
    let crc = checksum(payload.len(), payload) as nat;
    lemma_le_round_trip(payload.len(), 4);
    lemma_le_round_trip(crc, 4);
    let f = frame(payload);
    assert(f.subrange(0, 4) =~= le(payload.len(), 4));
    assert(f.subrange(4, 8) =~= le(crc, 4));
    assert(f.subrange(8, 8int + payload.len()) =~= payload);
}

/// A framed entry is read back whole, whatever follows it.
pub proof fn law_record_round_trip(before: Seq<u8>, e: EntryV, after: Seq<u8>)
    requires
        recordable(e),
    ensures
        record_at(before + frame(enc_entry(e)) + after, before.len() as int) == Ok::<
            RecordV,
            ErrorV,
        >(RecordV::Whole { entry: e, next: (before + frame(enc_entry(e))).len() as int }),
{
    let p = enc_entry(e);
    let f = frame(p);
    let file = before + f + after;
    let pos = before.len() as int;
    lemma_frame_parts(p);
    assert(file.subrange(pos, pos + 4) =~= f.subrange(0, 4));
    assert(file.subrange(pos + 4, pos + 8) =~= f.subrange(4, 8));
    assert(file.subrange(pos + 8, pos + 8 + p.len()) =~= p);
    law_entry_round_trip(e);
}

proof fn lemma_replay_step(file: Seq<u8>, pos: int, e: EntryV, next: int)
    requires
        record_at(file, pos) == Ok::<RecordV, ErrorV>(RecordV::Whole { entry: e, next }),
        pos < next <= file.len(),
    ensures
        replay_from(file, pos) == after_entries(seq![e], replay_from(file, next)),
{
}

proof fn lemma_replay_log(before: Seq<u8>, es: Seq<EntryV>, after: Seq<u8>)
    requires
        forall|i: int| 0 <= i < es.len() ==> recordable(#[trigger] es[i]),
    ensures
        replay_from(before + log_of(es) + after, before.len() as int) == after_entries(
            es,
            replay_from(before + log_of(es) + after, (before + log_of(es)).len() as int),
        ),
    decreases es.len(),
{
    let file = before + log_of(es) + after;
    if es.len() == 0 {
        let r = replay_from(file, before.len() as int);
        assert((before + log_of(es)).len() == before.len());
        match r {
            Ok((rest, _)) => assert(es + rest =~= rest),
            Err(_) => {},
        }
    } else {
        let e = es[0];
        let rest = es.drop_first();
        let f = frame(enc_entry(e));
        let later = log_of(rest) + after;
        assert(recordable(es[0]));
        assert(file =~= before + f + later);
        law_record_round_trip(before, e, later);
        lemma_frame_parts(enc_entry(e));
        lemma_replay_step(file, before.len() as int, e, (before + f).len() as int);
        assert forall|i: int| 0 <= i < rest.len() implies recordable(#[trigger] rest[i]) by {
            assert(recordable(es[i + 1]));
        }
        lemma_replay_log(before + f, rest, after);
        assert(file =~= (before + f) + log_of(rest) + after);
        assert((before + f) + log_of(rest) =~= before + log_of(es));
        let end = (before + log_of(es)).len() as int;
        match replay_from(file, end) {
            Ok((more, _)) => assert(seq![e] + (rest + more) =~= es + more) by {
                assert(seq![e] + rest =~= es);
            },
            Err(_) => {},
        }
    }
}

/// Replaying a log gives back exactly the entries that were written, in
/// order.
pub proof fn law_replay_round_trip(es: Seq<EntryV>)
    requires
        forall|i: int| 0 <= i < es.len() ==> recordable(#[trigger] es[i]),
    ensures
        replay_from(log_of(es), 0) == Ok::<(Seq<EntryV>, int), ErrorV>(
            (es, log_of(es).len() as int),
        ),
{
    let none = Seq::<u8>::empty();
    lemma_replay_log(none, es, none);
    assert(none + log_of(es) + none =~= log_of(es));
    assert(none + log_of(es) =~= log_of(es));
    assert(es + Seq::<EntryV>::empty() =~= es);
}

/// A write that is cut short anywhere costs nothing that was written before
/// it: the entries before it are replayed, and the good length is where they
/// end.
pub proof fn law_torn_tail_is_discarded(es: Seq<EntryV>, last: EntryV, cut: int)
    requires
        forall|i: int| 0 <= i < es.len() ==> recordable(#[trigger] es[i]),
        recordable(last),
        0 <= cut < frame(enc_entry(last)).len(),
    ensures
        replay_from(log_of(es) + frame(enc_entry(last)).take(cut), 0) == Ok::<
            (Seq<EntryV>, int),
            ErrorV,
        >((es, log_of(es).len() as int)),
{
    let none = Seq::<u8>::empty();
    let f = frame(enc_entry(last));
    let tail = f.take(cut);
    lemma_replay_log(none, es, tail);
    let file = log_of(es) + tail;
    assert(none + log_of(es) + tail =~= file);
    assert(none + log_of(es) =~= log_of(es));
    let pos = log_of(es).len() as int;
    lemma_frame_parts(enc_entry(last));
    if cut >= 8 {
        assert(file.subrange(pos, pos + 4) =~= f.subrange(0, 4));
    }
    assert(record_at(file, pos) == Ok::<RecordV, ErrorV>(RecordV::Torn));
    assert(es + Seq::<EntryV>::empty() =~= es);
}

// ---------- damage is noticed ----------

proof fn lemma_crc_bit_injective(a: u32, b: u32)
    requires
        crc_bit(a) == crc_bit(b),
    ensures
        a == b,
{
    assert((if a & 1 == 1 {
        (a >> 1) ^ 0xEDB8_8320u32
    } else {
        a >> 1
    }) == (if b & 1 == 1 {
        (b >> 1) ^ 0xEDB8_8320u32
    } else {
        b >> 1
    }) ==> a == b) by (bit_vector);
}

proof fn lemma_crc_bits_injective(a: u32, b: u32, n: nat)
    requires
        crc_bits(a, n) == crc_bits(b, n),
    ensures
        a == b,
    decreases n,
{
    if n > 0 {
        lemma_crc_bit_injective(crc_bits(a, (n - 1) as nat), crc_bits(b, (n - 1) as nat));
        lemma_crc_bits_injective(a, b, (n - 1) as nat);
    }
}

proof fn lemma_xor_injective(x: u32, y: u32, a: u8, b: u8)
    ensures
        x ^ (a as u32) == x ^ (b as u32) ==> a == b,
        x ^ (a as u32) == y ^ (a as u32) ==> x == y,
{
    assert(x ^ (a as u32) == x ^ (b as u32) ==> a == b) by (bit_vector);
    assert(x ^ (a as u32) == y ^ (a as u32) ==> x == y) by (bit_vector);
}

proof fn lemma_register_differs(s: Seq<u8>, t: Seq<u8>, at: int)
    requires
        s.len() == t.len(),
        0 <= at < s.len(),
        s[at] != t[at],
        forall|i: int| 0 <= i < s.len() && i != at ==> s[i] == t[i],
    ensures
        crc_register(s) != crc_register(t),
    decreases s.len(),
{
    let x = crc_register(s.drop_last());
    let y = crc_register(t.drop_last());
    if at == s.len() - 1 {
        assert(s.drop_last() =~= t.drop_last());
        lemma_xor_injective(x, y, s.last(), t.last());
    } else {
        lemma_register_differs(s.drop_last(), t.drop_last(), at);
        assert(s.last() == t.last());
        lemma_xor_injective(x, y, s.last(), t.last());
    }
    if crc_register(s) == crc_register(t) {
        lemma_crc_bits_injective(x ^ (s.last() as u32), y ^ (t.last() as u32), 8);
    }
}

/// Two texts that differ in exactly one byte have different checksums.
pub proof fn law_checksum_notices_a_changed_byte(s: Seq<u8>, t: Seq<u8>, at: int)
    requires
        s.len() == t.len(),
        0 <= at < s.len(),
        s[at] != t[at],
        forall|i: int| 0 <= i < s.len() && i != at ==> s[i] == t[i],
    ensures
        crc_of(s) != crc_of(t),
{
    lemma_register_differs(s, t, at);
    let x = crc_register(s);
    let y = crc_register(t);
    assert(!x == !y ==> x == y) by (bit_vector);
}

/// A record with one damaged payload byte is never accepted: at the end of
/// the log it counts as a torn tail, and with data behind it replay refuses.
pub proof fn law_damaged_payload_is_refused(
    before: Seq<u8>,
    payload: Seq<u8>,
    after: Seq<u8>,
    at: int,
    bad: u8,
)
    requires
        payload.len() < 0x1_0000_0000,
        0 <= at < payload.len(),
        bad != payload[at],
    ensures
        record_at(
            before + frame(payload).update(8 + at, bad) + after,
            before.len() as int,
        ) == (if after.len() == 0 {
            Ok::<RecordV, ErrorV>(RecordV::Torn)
        } else {
            Err::<RecordV, ErrorV>(damaged())
        }),
{
    lemma_frame_parts(payload);
    let f = frame(payload).update(8 + at, bad);
    let file = before + f + after;
    let pos = before.len() as int;
    let hurt = payload.update(at, bad);
    assert(file.subrange(pos, pos + 4) =~= frame(payload).subrange(0, 4));
    assert(file.subrange(pos + 4, pos + 8) =~= frame(payload).subrange(4, 8));
    assert(file.subrange(pos + 8, pos + 8 + payload.len()) =~= hurt) by {
        assert(frame(payload).subrange(8, 8int + payload.len()) == payload);
        assert forall|i: int| 0 <= i < payload.len() implies file.subrange(
            pos + 8,
            pos + 8 + payload.len(),
        )[i] == hurt[i] by {
            assert(frame(payload).subrange(8, 8int + payload.len())[i] == payload[i]);
        }
    }
    let head = le(payload.len(), 4);
    lemma_le_len(payload.len(), 4);
    law_checksum_notices_a_changed_byte(head + hurt, head + payload, 4 + at);
}

} // verus!
