//! The write-ahead log's format: entries, their encoding, the checksummed
//! records that carry them, and replay.
//!
//! Each record is `[len: u32 LE][crc: u32 LE][payload: len bytes]`, where `crc`
//! is a CRC-32 over the length's own four bytes and the payload together.
//! Replay goes front to back. Where nothing decodable follows (an incomplete
//! header, a length past the end, or a bad checksum on the last record) the
//! rest is a torn tail, which is discarded. A bad checksum with data still
//! behind it cannot be an interrupted write, and is refused.
use vstd::prelude::*;
use vstd::utf8::{decode_utf8, encode_utf8, valid_utf8};

use crate::bytes::{
    copy_range, le, le_value, lemma_le_value_bound, lemma_pow256, push_bytes, push_le, read_le,
    signed, to_signed, to_unsigned64, unsigned64,
};
use crate::error::{Error, ErrorV};
use crate::seqs::{opt_view, views};
use crate::storage::value::{ColumnSchema, ColumnSchemaV, ColumnType, Value, ValueV};
use crate::text::{cat2, decimal, string_from_utf8, u64_text};

verus! {

broadcast use crate::seqs::group_views;

pub const TAG_CREATE_TABLE: u8 = 1;

pub const TAG_INSERT_ROW: u8 = 2;

/// A batch of row inserts, one record for all of them.
pub const TAG_TRANSACTION: u8 = 3;

pub const TAG_CREATE_DATABASE: u8 = 4;

pub const TAG_DROP_DATABASE: u8 = 5;

pub const VALUE_NULL: u8 = 0;

pub const VALUE_INT: u8 = 1;

pub const VALUE_VARCHAR: u8 = 2;

pub const VALUE_DECIMAL: u8 = 3;

pub const VALUE_DATE: u8 = 4;

pub const COLUMN_TYPE_INT: u8 = 0;

pub const COLUMN_TYPE_VARCHAR: u8 = 1;

pub const COLUMN_TYPE_DECIMAL: u8 = 2;

pub const COLUMN_TYPE_DATE: u8 = 3;

/// One logged operation.
#[derive(Debug, PartialEq)]
pub enum Entry {
    CreateTable { table: String, columns: Vec<ColumnSchema>, primary_key: Option<String> },
    InsertRow { table: String, row: Vec<Value> },
    /// A batch of `(table, row)` inserts, applied all together or not at all.
    Transaction { rows: Vec<(String, Vec<Value>)> },
    CreateDatabase { name: String },
    DropDatabase { name: String },
}

/// A row together with the table it goes to.
pub ghost struct PlacedRow {
    pub table: Seq<char>,
    pub row: Seq<ValueV>,
}

/// The content of an [`Entry`].
pub ghost enum EntryV {
    CreateTable {
        table: Seq<char>,
        columns: Seq<ColumnSchemaV>,
        primary_key: Option<Seq<char>>,
    },
    InsertRow { placed: PlacedRow },
    Transaction { rows: Seq<PlacedRow> },
    CreateDatabase { name: Seq<char> },
    DropDatabase { name: Seq<char> },
}

/// The content of a row and its table.
pub open spec fn placed(p: (String, Vec<Value>)) -> PlacedRow {
    PlacedRow { table: p.0@, row: views(p.1@) }
}

/// The content of rows and their tables.
pub open spec fn placed_rows(rows: Seq<(String, Vec<Value>)>) -> Seq<PlacedRow> {
    Seq::new(rows.len(), |i: int| placed(rows[i]))
}

impl View for Entry {
    type V = EntryV;

    open spec fn view(&self) -> EntryV {
        match self {
            Entry::CreateTable { table, columns, primary_key } => EntryV::CreateTable {
                table: table@,
                columns: views(columns@),
                primary_key: opt_view(*primary_key),
            },
            Entry::InsertRow { table, row } => EntryV::InsertRow {
                placed: PlacedRow { table: table@, row: views(row@) },
            },
            Entry::Transaction { rows } => EntryV::Transaction { rows: placed_rows(rows@) },
            Entry::CreateDatabase { name } => EntryV::CreateDatabase { name: name@ },
            Entry::DropDatabase { name } => EntryV::DropDatabase { name: name@ },
        }
    }
}

// ---------- encoding ----------

/// Text: its length in bytes, then its bytes.
pub open spec fn enc_text(s: Seq<char>) -> Seq<u8> {
    le(encode_utf8(s).len(), 4) + encode_utf8(s)
}

/// A value: a tag, then its content.
pub open spec fn enc_value(v: ValueV) -> Seq<u8> {
    match v {
        ValueV::Null => seq![VALUE_NULL],
        ValueV::Int(n) => seq![VALUE_INT] + le(unsigned64(n as int), 8),
        ValueV::Varchar(s) => seq![VALUE_VARCHAR] + enc_text(s),
        ValueV::Decimal(n, scale) => seq![VALUE_DECIMAL] + le(unsigned64(n as int), 8) + seq![scale],
        ValueV::Date(s) => seq![VALUE_DATE] + enc_text(s),
    }
}

/// Values in a row, one after the other.
pub open spec fn enc_values(vs: Seq<ValueV>) -> Seq<u8>
    decreases vs.len(),
{
    if vs.len() == 0 {
        Seq::empty()
    } else {
        enc_values(vs.drop_last()) + enc_value(vs.last())
    }
}

/// A row and its table.
pub open spec fn enc_placed(p: PlacedRow) -> Seq<u8> {
    enc_text(p.table) + le(p.row.len(), 4) + enc_values(p.row)
}

/// Rows and their tables, one after the other.
pub open spec fn enc_placed_rows(rows: Seq<PlacedRow>) -> Seq<u8>
    decreases rows.len(),
{
    if rows.len() == 0 {
        Seq::empty()
    } else {
        enc_placed_rows(rows.drop_last()) + enc_placed(rows.last())
    }
}

/// A column type: a tag, and for a decimal its scale.
pub open spec fn enc_type(t: ColumnType) -> Seq<u8> {
    match t {
        ColumnType::Int => seq![COLUMN_TYPE_INT],
        ColumnType::Varchar => seq![COLUMN_TYPE_VARCHAR],
        ColumnType::Date => seq![COLUMN_TYPE_DATE],
        ColumnType::Decimal(scale) => seq![COLUMN_TYPE_DECIMAL, scale],
    }
}

/// The flags of a column: 1 for nullable, 2 for auto-increment.
pub open spec fn column_flags(c: ColumnSchemaV) -> u8 {
    ((if c.nullable {
        1int
    } else {
        0
    }) + (if c.auto_increment {
        2int
    } else {
        0
    })) as u8
}

pub open spec fn enc_column(c: ColumnSchemaV) -> Seq<u8> {
    enc_text(c.name) + enc_type(c.column_type) + seq![column_flags(c)]
}

pub open spec fn enc_columns(cs: Seq<ColumnSchemaV>) -> Seq<u8>
    decreases cs.len(),
{
    if cs.len() == 0 {
        Seq::empty()
    } else {
        enc_columns(cs.drop_last()) + enc_column(cs.last())
    }
}

pub open spec fn enc_primary_key(pk: Option<Seq<char>>) -> Seq<u8> {
    match pk {
        Some(name) => seq![1u8] + enc_text(name),
        None => seq![0u8],
    }
}

/// An entry, as a record's payload.
#[verifier::opaque]
pub open spec fn enc_entry(e: EntryV) -> Seq<u8> {
    match e {
        EntryV::CreateTable { table, columns, primary_key } => seq![TAG_CREATE_TABLE] + enc_text(
            table,
        ) + enc_primary_key(primary_key) + le(columns.len(), 4) + enc_columns(columns),
        EntryV::InsertRow { placed } => seq![TAG_INSERT_ROW] + enc_placed(placed),
        EntryV::Transaction { rows } => seq![TAG_TRANSACTION] + le(rows.len(), 4)
            + enc_placed_rows(rows),
        EntryV::CreateDatabase { name } => seq![TAG_CREATE_DATABASE] + enc_text(name),
        EntryV::DropDatabase { name } => seq![TAG_DROP_DATABASE] + enc_text(name),
    }
}

fn write_string(buf: &mut Vec<u8>, s: &str)
    ensures
        final(buf)@ == old(buf)@ + enc_text(s@),
{
    let bytes = s.as_bytes();
    push_le(buf, bytes.len() as u64, 4);
    push_bytes(buf, bytes);
    proof {
        assert(buf@ =~= old(buf)@ + enc_text(s@));
    }
}

fn write_value(buf: &mut Vec<u8>, value: &Value)
    ensures
        final(buf)@ == old(buf)@ + enc_value(value@),
{
    match value {
        Value::Null => buf.push(VALUE_NULL),
        Value::Int(n) => {
            buf.push(VALUE_INT);
            push_le(buf, to_unsigned64(*n), 8);
        },
        Value::Varchar(s) => {
            buf.push(VALUE_VARCHAR);
            write_string(buf, s.as_str());
        },
        Value::Decimal(unscaled, scale) => {
            buf.push(VALUE_DECIMAL);
            push_le(buf, to_unsigned64(*unscaled), 8);
            buf.push(*scale);
        },
        Value::Date(s) => {
            buf.push(VALUE_DATE);
            write_string(buf, s.as_str());
        },
    }
    proof {
        assert(buf@ =~= old(buf)@ + enc_value(value@));
    }
}

/// A value's encoding by itself.
pub fn encode_value(value: &Value) -> (r: Vec<u8>)
    ensures
        r@ == enc_value(value@),
{
    let mut buf: Vec<u8> = Vec::new();
    write_value(&mut buf, value);
    proof {
        assert(buf@ =~= enc_value(value@));
    }
    buf
}

fn write_placed(buf: &mut Vec<u8>, table: &str, row: &[Value])
    ensures
        final(buf)@ == old(buf)@ + enc_placed(PlacedRow { table: table@, row: views(row@) }),
{
    write_string(buf, table);
    push_le(buf, row.len() as u64, 4);
    let ghost before = buf@;
    let ghost vs = views(row@);
    let mut i: usize = 0;
    proof {
        assert(vs.take(0) =~= Seq::empty());
        assert(before + enc_values(vs.take(0)) =~= before);
    }
    while i < row.len()
        invariant
            i <= row@.len(),
            vs == views(row@),
            buf@ == before + enc_values(vs.take(i as int)),
        decreases row@.len() - i,
    {
        write_value(buf, &row[i]);
        proof {
            assert(vs.take(i + 1).drop_last() =~= vs.take(i as int));
            assert(vs.take(i + 1).last() == row@[i as int]@);
            assert(buf@ =~= before + enc_values(vs.take(i + 1)));
        }
        i = i + 1;
    }
    proof {
        assert(vs.take(row@.len() as int) =~= vs);
        assert(buf@ =~= old(buf)@ + enc_placed(PlacedRow { table: table@, row: views(row@) }));
    }
}

fn write_column(buf: &mut Vec<u8>, col: &ColumnSchema)
    ensures
        final(buf)@ == old(buf)@ + enc_column(col@),
{
    write_string(buf, col.name.as_str());
    match col.column_type {
        ColumnType::Int => buf.push(COLUMN_TYPE_INT),
        ColumnType::Varchar => buf.push(COLUMN_TYPE_VARCHAR),
        ColumnType::Date => buf.push(COLUMN_TYPE_DATE),
        ColumnType::Decimal(scale) => {
            buf.push(COLUMN_TYPE_DECIMAL);
            buf.push(scale);
        },
    }
    let mut flags: u8 = 0;
    if col.nullable {
        flags = flags + 1;
    }
    if col.auto_increment {
        flags = flags + 2;
    }
    buf.push(flags);
    proof {
        assert(buf@ =~= old(buf)@ + enc_column(col@));
    }
}

/// The payload of a [`Entry::CreateTable`].
pub fn encode_create_table(table: &str, columns: &[ColumnSchema], primary_key: Option<&str>) -> (r:
    Vec<u8>)
    ensures
        r@ == enc_entry(
            EntryV::CreateTable {
                table: table@,
                columns: views(columns@),
                primary_key: match primary_key {
                    Some(p) => Some(p@),
                    None => None,
                },
            },
        ),
{
    proof {
        reveal(enc_entry);
    }
    let mut buf: Vec<u8> = Vec::new();
    buf.push(TAG_CREATE_TABLE);
    write_string(&mut buf, table);
    match primary_key {
        Some(pk) => {
            buf.push(1);
            write_string(&mut buf, pk);
        },
        None => buf.push(0),
    }
    push_le(&mut buf, columns.len() as u64, 4);
    let ghost before = buf@;
    let ghost cs = views(columns@);
    let ghost pk = match primary_key {
        Some(p) => Some(p@),
        None => None,
    };
    proof {
        assert(before =~= seq![TAG_CREATE_TABLE] + enc_text(table@) + enc_primary_key(pk) + le(
            cs.len(),
            4,
        ));
        assert(cs.take(0) =~= Seq::empty());
        assert(before + enc_columns(cs.take(0)) =~= before);
    }
    let mut i: usize = 0;
    while i < columns.len()
        invariant
            i <= columns@.len(),
            cs == views(columns@),
            buf@ == before + enc_columns(cs.take(i as int)),
        decreases columns@.len() - i,
    {
        write_column(&mut buf, &columns[i]);
        proof {
            assert(cs.take(i + 1).drop_last() =~= cs.take(i as int));
            assert(cs.take(i + 1).last() == columns@[i as int]@);
            assert(buf@ =~= before + enc_columns(cs.take(i + 1)));
        }
        i = i + 1;
    }
    proof {
        assert(cs.take(columns@.len() as int) =~= cs);
    }
    buf
}

/// The payload of a [`Entry::InsertRow`].
pub fn encode_insert_row(table: &str, row: &[Value]) -> (r: Vec<u8>)
    ensures
        r@ == enc_entry(
            EntryV::InsertRow { placed: PlacedRow { table: table@, row: views(row@) } },
        ),
{
    proof {
        reveal(enc_entry);
    }
    let mut buf: Vec<u8> = Vec::new();
    buf.push(TAG_INSERT_ROW);
    write_placed(&mut buf, table, row);
    proof {
        assert(Seq::<u8>::empty().push(TAG_INSERT_ROW) =~= seq![TAG_INSERT_ROW]);
    }
    buf
}

/// The payload of a [`Entry::Transaction`].
pub fn encode_transaction(rows: &[(String, Vec<Value>)]) -> (r: Vec<u8>)
    ensures
        r@ == enc_entry(EntryV::Transaction { rows: placed_rows(rows@) }),
{
    proof {
        reveal(enc_entry);
    }
    let mut buf: Vec<u8> = Vec::new();
    buf.push(TAG_TRANSACTION);
    push_le(&mut buf, rows.len() as u64, 4);
    let ghost before = buf@;
    let ghost ps = placed_rows(rows@);
    proof {
        assert(before =~= seq![TAG_TRANSACTION] + le(ps.len(), 4));
        assert(ps.take(0) =~= Seq::empty());
        assert(before + enc_placed_rows(ps.take(0)) =~= before);
    }
    let mut i: usize = 0;
    while i < rows.len()
        invariant
            i <= rows@.len(),
            ps == placed_rows(rows@),
            buf@ == before + enc_placed_rows(ps.take(i as int)),
        decreases rows@.len() - i,
    {
        write_placed(&mut buf, rows[i].0.as_str(), rows[i].1.as_slice());
        proof {
            assert(ps.take(i + 1).drop_last() =~= ps.take(i as int));
            assert(ps.take(i + 1).last() == placed(rows@[i as int]));
            assert(buf@ =~= before + enc_placed_rows(ps.take(i + 1)));
        }
        i = i + 1;
    }
    proof {
        assert(ps.take(rows@.len() as int) =~= ps);
    }
    buf
}

/// The payload of a [`Entry::CreateDatabase`].
pub fn encode_create_database(name: &str) -> (r: Vec<u8>)
    ensures
        r@ == enc_entry(EntryV::CreateDatabase { name: name@ }),
{
    proof {
        reveal(enc_entry);
    }
    let mut buf: Vec<u8> = Vec::new();
    buf.push(TAG_CREATE_DATABASE);
    write_string(&mut buf, name);
    proof {
        assert(Seq::<u8>::empty().push(TAG_CREATE_DATABASE) =~= seq![TAG_CREATE_DATABASE]);
    }
    buf
}

/// The payload of a [`Entry::DropDatabase`].
pub fn encode_drop_database(name: &str) -> (r: Vec<u8>)
    ensures
        r@ == enc_entry(EntryV::DropDatabase { name: name@ }),
{
    proof {
        reveal(enc_entry);
    }
    let mut buf: Vec<u8> = Vec::new();
    buf.push(TAG_DROP_DATABASE);
    write_string(&mut buf, name);
    proof {
        assert(Seq::<u8>::empty().push(TAG_DROP_DATABASE) =~= seq![TAG_DROP_DATABASE]);
    }
    buf
}

// ---------- checksums and records ----------

pub const CRC_POLY: u32 = 0xEDB8_8320;

/// One bit of a CRC-32 (reflected, polynomial `0xEDB88320`).
pub open spec fn crc_bit(c: u32) -> u32 {
    if c & 1 == 1 {
        (c >> 1) ^ CRC_POLY
    } else {
        c >> 1
    }
}

/// `n` bits of a CRC-32.
pub open spec fn crc_bits(c: u32, n: nat) -> u32
    decreases n,
{
    if n == 0 {
        c
    } else {
        crc_bit(crc_bits(c, (n - 1) as nat))
    }
}

/// The CRC-32 register after the bytes of `s`.
pub open spec fn crc_register(s: Seq<u8>) -> u32
    decreases s.len(),
{
    if s.len() == 0 {
        0xFFFF_FFFF
    } else {
        crc_bits(crc_register(s.drop_last()) ^ (s.last() as u32), 8)
    }
}

/// The CRC-32 of `s` (IEEE 802.3).
pub open spec fn crc_of(s: Seq<u8>) -> u32 {
    !crc_register(s)
}

/// CRC-32 (the IEEE 802.3/zlib/gzip/PNG variant: reflected input and output,
/// initial value and final XOR both `0xFFFFFFFF`).
pub fn crc32(data: &[u8]) -> (r: u32)
    ensures
        r == crc_of(data@),
{
    let mut crc: u32 = 0xFFFF_FFFF;
    let mut i: usize = 0;
    proof {
        assert(data@.take(0) =~= Seq::empty());
    }
    while i < data.len()
        invariant
            i <= data@.len(),
            crc == crc_register(data@.take(i as int)),
        decreases data@.len() - i,
    {
        crc = crc ^ (data[i] as u32);
        let ghost start = crc;
        let mut bit: usize = 0;
        while bit < 8
            invariant
                bit <= 8,
                crc == crc_bits(start, bit as nat),
            decreases 8 - bit,
        {
            if crc & 1 == 1 {
                crc = (crc >> 1) ^ CRC_POLY;
            } else {
                crc = crc >> 1;
            }
            bit = bit + 1;
        }
        proof {
            assert(data@.take(i + 1).drop_last() =~= data@.take(i as int));
            assert(data@.take(i + 1).last() == data@[i as int]);
        }
        i = i + 1;
    }
    proof {
        assert(data@.take(data@.len() as int) =~= data@);
    }
    !crc
}

/// The checksum stored in a record's header: over the length's own four bytes
/// and the payload together.
pub open spec fn checksum(len: nat, payload: Seq<u8>) -> u32 {
    crc_of(le(len, 4) + payload)
}

/// A payload as a record.
pub open spec fn frame(payload: Seq<u8>) -> Seq<u8> {
    le(payload.len(), 4) + le(checksum(payload.len(), payload) as nat, 4) + payload
}

fn record_crc(len: u64, payload: &[u8]) -> (r: u32)
    ensures
        r == checksum(len as nat, payload@),
{
    let mut buf: Vec<u8> = Vec::new();
    push_le(&mut buf, len, 4);
    push_bytes(&mut buf, payload);
    proof {
        assert(buf@ =~= le(len as nat, 4) + payload@);
    }
    crc32(buf.as_slice())
}

/// Frame one entry's payload as a record.
pub fn frame_record(entry_bytes: &[u8]) -> (r: Vec<u8>)
    ensures
        r@ == frame(entry_bytes@),
{
    let len: u64 = entry_bytes.len() as u64;
    let crc: u32 = record_crc(len, entry_bytes);
    let mut framed: Vec<u8> = Vec::new();
    push_le(&mut framed, len, 4);
    push_le(&mut framed, crc as u64, 4);
    push_bytes(&mut framed, entry_bytes);
    proof {
        assert(framed@ =~= frame(entry_bytes@));
    }
    framed
}

// ---------- decoding ----------

/// The error for a log that cannot be read.
pub open spec fn corrupted(context: Seq<char>) -> ErrorV {
    ErrorV::Execution("corrupt data file: "@ + context)
}

/// What a decoder that reads a `T` yields: the value and the place behind it.
pub type Decoded<T> = Result<(T, int), ErrorV>;

pub open spec fn dec_byte(b: Seq<u8>, pos: int) -> Decoded<u8> {
    if 0 <= pos < b.len() {
        Ok((b[pos], pos + 1))
    } else {
        Err(corrupted("truncated tag byte"@))
    }
}

pub open spec fn dec_u32(b: Seq<u8>, pos: int) -> Decoded<nat> {
    if pos + 4 <= b.len() {
        Ok((le_value(b.subrange(pos, pos + 4)), pos + 4))
    } else {
        Err(corrupted("truncated u32"@))
    }
}

pub open spec fn dec_i64(b: Seq<u8>, pos: int) -> Decoded<i64> {
    if pos + 8 <= b.len() {
        Ok((signed(le_value(b.subrange(pos, pos + 8)), 0x8000_0000_0000_0000) as i64, pos + 8))
    } else {
        Err(corrupted("truncated i64"@))
    }
}

pub open spec fn dec_text(b: Seq<u8>, pos: int) -> Decoded<Seq<char>> {
    match dec_u32(b, pos) {
        Err(e) => Err(e),
        Ok((len, at)) => if at + len > usize::MAX {
            Err(corrupted("length overflow"@))
        } else if at + len > b.len() {
            Err(corrupted("truncated string"@))
        } else if !valid_utf8(b.subrange(at, at + len)) {
            Err(corrupted("invalid utf-8"@))
        } else {
            Ok((decode_utf8(b.subrange(at, at + len)), at + len))
        },
    }
}

pub open spec fn dec_value(b: Seq<u8>, pos: int) -> Decoded<ValueV> {
    match dec_byte(b, pos) {
        Err(e) => Err(e),
        Ok((tag, at)) => if tag == VALUE_NULL {
            Ok((ValueV::Null, at))
        } else if tag == VALUE_INT {
            match dec_i64(b, at) {
                Ok((n, at)) => Ok((ValueV::Int(n), at)),
                Err(e) => Err(e),
            }
        } else if tag == VALUE_VARCHAR {
            match dec_text(b, at) {
                Ok((s, at)) => Ok((ValueV::Varchar(s), at)),
                Err(e) => Err(e),
            }
        } else if tag == VALUE_DECIMAL {
            match dec_i64(b, at) {
                Err(e) => Err(e),
                Ok((n, at)) => match dec_byte(b, at) {
                    Ok((scale, at)) => Ok((ValueV::Decimal(n, scale), at)),
                    Err(e) => Err(e),
                },
            }
        } else if tag == VALUE_DATE {
            match dec_text(b, at) {
                Ok((s, at)) => Ok((ValueV::Date(s), at)),
                Err(e) => Err(e),
            }
        } else {
            Err(corrupted("unknown value tag "@ + decimal(tag as nat)))
        },
    }
}

/// `n` values.
pub open spec fn dec_values(b: Seq<u8>, pos: int, n: nat) -> Decoded<Seq<ValueV>>
    decreases n,
{
    if n == 0 {
        Ok((Seq::empty(), pos))
    } else {
        match dec_values(b, pos, (n - 1) as nat) {
            Err(e) => Err(e),
            Ok((front, at)) => match dec_value(b, at) {
                Ok((v, at)) => Ok((front.push(v), at)),
                Err(e) => Err(e),
            },
        }
    }
}

/// A row and its table.
pub open spec fn dec_placed(b: Seq<u8>, pos: int) -> Decoded<PlacedRow> {
    match dec_text(b, pos) {
        Err(e) => Err(e),
        Ok((table, at)) => match dec_u32(b, at) {
            Err(e) => Err(e),
            Ok((n, at)) => match dec_values(b, at, n) {
                Ok((row, at)) => Ok((PlacedRow { table, row }, at)),
                Err(e) => Err(e),
            },
        },
    }
}

/// `n` rows and their tables.
pub open spec fn dec_placed_rows(b: Seq<u8>, pos: int, n: nat) -> Decoded<Seq<PlacedRow>>
    decreases n,
{
    if n == 0 {
        Ok((Seq::empty(), pos))
    } else {
        match dec_placed_rows(b, pos, (n - 1) as nat) {
            Err(e) => Err(e),
            Ok((front, at)) => match dec_placed(b, at) {
                Ok((p, at)) => Ok((front.push(p), at)),
                Err(e) => Err(e),
            },
        }
    }
}

pub open spec fn dec_type(b: Seq<u8>, pos: int) -> Decoded<ColumnType> {
    match dec_byte(b, pos) {
        Err(e) => Err(e),
        Ok((tag, at)) => if tag == COLUMN_TYPE_INT {
            Ok((ColumnType::Int, at))
        } else if tag == COLUMN_TYPE_VARCHAR {
            Ok((ColumnType::Varchar, at))
        } else if tag == COLUMN_TYPE_DATE {
            Ok((ColumnType::Date, at))
        } else if tag == COLUMN_TYPE_DECIMAL {
            match dec_byte(b, at) {
                Ok((scale, at)) => Ok((ColumnType::Decimal(scale), at)),
                Err(e) => Err(e),
            }
        } else {
            Err(corrupted("unknown column type tag "@ + decimal(tag as nat)))
        },
    }
}

pub open spec fn dec_column(b: Seq<u8>, pos: int) -> Decoded<ColumnSchemaV> {
    match dec_text(b, pos) {
        Err(e) => Err(e),
        Ok((name, at)) => match dec_type(b, at) {
            Err(e) => Err(e),
            Ok((column_type, at)) => match dec_byte(b, at) {
                Err(e) => Err(e),
                Ok((flags, at)) => Ok(
                    (
                        ColumnSchemaV {
                            name,
                            column_type,
                            nullable: flags % 2 == 1,
                            auto_increment: (flags / 2) % 2 == 1,
                        },
                        at,
                    ),
                ),
            },
        },
    }
}

/// `n` columns.
pub open spec fn dec_columns(b: Seq<u8>, pos: int, n: nat) -> Decoded<Seq<ColumnSchemaV>>
    decreases n,
{
    if n == 0 {
        Ok((Seq::empty(), pos))
    } else {
        match dec_columns(b, pos, (n - 1) as nat) {
            Err(e) => Err(e),
            Ok((front, at)) => match dec_column(b, at) {
                Ok((c, at)) => Ok((front.push(c), at)),
                Err(e) => Err(e),
            },
        }
    }
}

pub open spec fn dec_primary_key(b: Seq<u8>, pos: int) -> Decoded<Option<Seq<char>>> {
    match dec_byte(b, pos) {
        Err(e) => Err(e),
        Ok((flag, at)) => if flag == 0 {
            Ok((None, at))
        } else if flag == 1 {
            match dec_text(b, at) {
                Ok((name, at)) => Ok((Some(name), at)),
                Err(e) => Err(e),
            }
        } else {
            Err(corrupted("unknown primary-key flag "@ + decimal(flag as nat)))
        },
    }
}

pub open spec fn dec_create_table(b: Seq<u8>, pos: int) -> Decoded<EntryV> {
    match dec_text(b, pos) {
        Err(e) => Err(e),
        Ok((table, at)) => match dec_primary_key(b, at) {
            Err(e) => Err(e),
            Ok((primary_key, at)) => match dec_u32(b, at) {
                Err(e) => Err(e),
                Ok((n, at)) => match dec_columns(b, at, n) {
                    Err(e) => Err(e),
                    Ok((columns, at)) => Ok(
                        (EntryV::CreateTable { table, columns, primary_key }, at),
                    ),
                },
            },
        },
    }
}

/// An entry and the place behind it.
pub open spec fn dec_entry_at(b: Seq<u8>) -> Decoded<EntryV> {
    match dec_byte(b, 0) {
        Err(e) => Err(e),
        Ok((tag, at)) => if tag == TAG_CREATE_TABLE {
            dec_create_table(b, at)
        } else if tag == TAG_INSERT_ROW {
            match dec_placed(b, at) {
                Ok((placed, at)) => Ok((EntryV::InsertRow { placed }, at)),
                Err(e) => Err(e),
            }
        } else if tag == TAG_TRANSACTION {
            match dec_u32(b, at) {
                Err(e) => Err(e),
                Ok((n, at)) => match dec_placed_rows(b, at, n) {
                    Ok((rows, at)) => Ok((EntryV::Transaction { rows }, at)),
                    Err(e) => Err(e),
                },
            }
        } else if tag == TAG_CREATE_DATABASE {
            match dec_text(b, at) {
                Ok((name, at)) => Ok((EntryV::CreateDatabase { name }, at)),
                Err(e) => Err(e),
            }
        } else if tag == TAG_DROP_DATABASE {
            match dec_text(b, at) {
                Ok((name, at)) => Ok((EntryV::DropDatabase { name }, at)),
                Err(e) => Err(e),
            }
        } else {
            Err(corrupted("unknown entry tag "@ + decimal(tag as nat)))
        },
    }
}

/// The entry that a payload holds.
#[verifier::opaque]
pub open spec fn dec_entry(b: Seq<u8>) -> Result<EntryV, ErrorV> {
    match dec_entry_at(b) {
        Ok((e, _)) => Ok(e),
        Err(e) => Err(e),
    }
}

fn corrupt(context: &str) -> (r: Error)
    ensures
        r@ == corrupted(context@),
{
    Error::Execution(cat2("corrupt data file: ", context))
}

fn corrupt_tag(context: &str, tag: u8) -> (r: Error)
    ensures
        r@ == corrupted(context@ + decimal(tag as nat)),
{
    let text = cat2(context, u64_text(tag as u64).as_str());
    corrupt(text.as_str())
}

/// Whether a decoder's outcome, ending at `pos`, is what the format says.
spec fn decodes<T: View>(r: Result<T, Error>, pos: usize, format: Decoded<T::V>) -> bool {
    match r {
        Ok(x) => format == Ok::<(T::V, int), ErrorV>((x@, pos as int)),
        Err(e) => format == Err::<(T::V, int), ErrorV>(e@),
    }
}

fn read_u32(bytes: &[u8], pos: &mut usize) -> (r: Result<u32, Error>)
    requires
        *old(pos) <= bytes@.len(),
    ensures
        *final(pos) <= bytes@.len(),
        match r {
            Ok(n) => dec_u32(bytes@, *old(pos) as int) == Ok::<(nat, int), ErrorV>(
                (n as nat, *final(pos) as int),
            ),
            Err(e) => dec_u32(bytes@, *old(pos) as int) == Err::<(nat, int), ErrorV>(e@),
        },
{
    let start: usize = *pos;
    if bytes.len() - start < 4 {
        return Err(corrupt("truncated u32"));
    }
    let n: u64 = read_le(bytes, start, 4);
    proof {
        lemma_le_value_bound(bytes@.subrange(start as int, start + 4));
        lemma_pow256();
    }
    *pos = start + 4;
    Ok(n as u32)
}

fn read_i64(bytes: &[u8], pos: &mut usize) -> (r: Result<i64, Error>)
    requires
        *old(pos) <= bytes@.len(),
    ensures
        *final(pos) <= bytes@.len(),
        match r {
            Ok(n) => dec_i64(bytes@, *old(pos) as int) == Ok::<(i64, int), ErrorV>(
                (n, *final(pos) as int),
            ),
            Err(e) => dec_i64(bytes@, *old(pos) as int) == Err::<(i64, int), ErrorV>(e@),
        },
{
    let start: usize = *pos;
    if bytes.len() - start < 8 {
        return Err(corrupt("truncated i64"));
    }
    let n: u64 = read_le(bytes, start, 8);
    *pos = start + 8;
    Ok(to_signed(n, 0x8000_0000_0000_0000))
}

fn read_byte(bytes: &[u8], pos: &mut usize) -> (r: Result<u8, Error>)
    requires
        *old(pos) <= bytes@.len(),
    ensures
        *final(pos) <= bytes@.len(),
        match r {
            Ok(n) => dec_byte(bytes@, *old(pos) as int) == Ok::<(u8, int), ErrorV>(
                (n, *final(pos) as int),
            ),
            Err(e) => dec_byte(bytes@, *old(pos) as int) == Err::<(u8, int), ErrorV>(e@),
        },
{
    let start: usize = *pos;
    if start == bytes.len() {
        return Err(corrupt("truncated tag byte"));
    }
    *pos = start + 1;
    Ok(bytes[start])
}

fn read_string(bytes: &[u8], pos: &mut usize) -> (r: Result<String, Error>)
    requires
        *old(pos) <= bytes@.len(),
    ensures
        *final(pos) <= bytes@.len(),
        decodes(r, *final(pos), dec_text(bytes@, *old(pos) as int)),
{
    let len: u32 = read_u32(bytes, pos)?;
    let start: usize = *pos;
    if len as u64 > usize::MAX as u64 || (len as usize) > usize::MAX - start {
        return Err(corrupt("length overflow"));
    }
    let end: usize = start + len as usize;
    if end > bytes.len() {
        return Err(corrupt("truncated string"));
    }
    match string_from_utf8(copy_range(bytes, start, end)) {
        Some(s) => {
            *pos = end;
            Ok(s)
        },
        None => Err(corrupt("invalid utf-8")),
    }
}

fn read_value(bytes: &[u8], pos: &mut usize) -> (r: Result<Value, Error>)
    requires
        *old(pos) <= bytes@.len(),
    ensures
        *final(pos) <= bytes@.len(),
        decodes(r, *final(pos), dec_value(bytes@, *old(pos) as int)),
{
    let tag: u8 = read_byte(bytes, pos)?;
    if tag == VALUE_NULL {
        Ok(Value::Null)
    } else if tag == VALUE_INT {
        let n: i64 = read_i64(bytes, pos)?;
        Ok(Value::Int(n))
    } else if tag == VALUE_VARCHAR {
        let s = read_string(bytes, pos)?;
        Ok(Value::Varchar(s))
    } else if tag == VALUE_DECIMAL {
        let unscaled: i64 = read_i64(bytes, pos)?;
        let scale: u8 = read_byte(bytes, pos)?;
        Ok(Value::Decimal(unscaled, scale))
    } else if tag == VALUE_DATE {
        let s = read_string(bytes, pos)?;
        Ok(Value::Date(s))
    } else {
        Err(corrupt_tag("unknown value tag ", tag))
    }
}

/// A failure early on is the failure of the whole.
proof fn lemma_dec_values_stops(b: Seq<u8>, pos: int, k: nat, n: nat)
    requires
        k <= n,
        dec_values(b, pos, k) is Err,
    ensures
        dec_values(b, pos, n) == dec_values(b, pos, k),
    decreases n,
{
    if k < n {
        lemma_dec_values_stops(b, pos, k, (n - 1) as nat);
    }
}

proof fn lemma_dec_placed_rows_stops(b: Seq<u8>, pos: int, k: nat, n: nat)
    requires
        k <= n,
        dec_placed_rows(b, pos, k) is Err,
    ensures
        dec_placed_rows(b, pos, n) == dec_placed_rows(b, pos, k),
    decreases n,
{
    if k < n {
        lemma_dec_placed_rows_stops(b, pos, k, (n - 1) as nat);
    }
}

proof fn lemma_dec_columns_stops(b: Seq<u8>, pos: int, k: nat, n: nat)
    requires
        k <= n,
        dec_columns(b, pos, k) is Err,
    ensures
        dec_columns(b, pos, n) == dec_columns(b, pos, k),
    decreases n,
{
    if k < n {
        lemma_dec_columns_stops(b, pos, k, (n - 1) as nat);
    }
}

/// A row and its table.
fn read_placed(bytes: &[u8], pos: &mut usize) -> (r: Result<(String, Vec<Value>), Error>)
    requires
        *old(pos) <= bytes@.len(),
    ensures
        *final(pos) <= bytes@.len(),
        match r {
            Ok(p) => dec_placed(bytes@, *old(pos) as int) == Ok::<(PlacedRow, int), ErrorV>(
                (placed(p), *final(pos) as int),
            ),
            Err(e) => dec_placed(bytes@, *old(pos) as int) == Err::<(PlacedRow, int), ErrorV>(e@),
        },
{
    let ghost whole = dec_placed(bytes@, *pos as int);
    let table = read_string(bytes, pos)?;
    let count: u32 = read_u32(bytes, pos)?;
    let mut row: Vec<Value> = Vec::new();
    let ghost start = *pos as int;
    let mut i: u32 = 0;
    while i < count
        invariant
            i <= count,
            *pos <= bytes@.len(),
            dec_values(bytes@, start, i as nat) == Ok::<(Seq<ValueV>, int), ErrorV>(
                (views(row@), *pos as int),
            ),
            whole == dec_placed(bytes@, *old(pos) as int),
            match dec_values(bytes@, start, count as nat) {
                Ok((vs, at)) => whole == Ok::<(PlacedRow, int), ErrorV>(
                    (PlacedRow { table: table@, row: vs }, at),
                ),
                Err(e) => whole == Err::<(PlacedRow, int), ErrorV>(e),
            },
        decreases count - i,
    {
        match read_value(bytes, pos) {
            Ok(v) => {
                row.push(v);
            },
            Err(e) => {
                proof {
                    lemma_dec_values_stops(bytes@, start, (i + 1) as nat, count as nat);
                }
                return Err(e);
            },
        }
        i = i + 1;
    }
    Ok((table, row))
}

fn read_column_type(bytes: &[u8], pos: &mut usize) -> (r: Result<ColumnType, Error>)
    requires
        *old(pos) <= bytes@.len(),
    ensures
        *final(pos) <= bytes@.len(),
        match r {
            Ok(t) => dec_type(bytes@, *old(pos) as int) == Ok::<(ColumnType, int), ErrorV>(
                (t, *final(pos) as int),
            ),
            Err(e) => dec_type(bytes@, *old(pos) as int) == Err::<(ColumnType, int), ErrorV>(e@),
        },
{
    let tag: u8 = read_byte(bytes, pos)?;
    if tag == COLUMN_TYPE_INT {
        Ok(ColumnType::Int)
    } else if tag == COLUMN_TYPE_VARCHAR {
        Ok(ColumnType::Varchar)
    } else if tag == COLUMN_TYPE_DATE {
        Ok(ColumnType::Date)
    } else if tag == COLUMN_TYPE_DECIMAL {
        let scale: u8 = read_byte(bytes, pos)?;
        Ok(ColumnType::Decimal(scale))
    } else {
        Err(corrupt_tag("unknown column type tag ", tag))
    }
}

fn read_column(bytes: &[u8], pos: &mut usize) -> (r: Result<ColumnSchema, Error>)
    requires
        *old(pos) <= bytes@.len(),
    ensures
        *final(pos) <= bytes@.len(),
        decodes(r, *final(pos), dec_column(bytes@, *old(pos) as int)),
{
    let name = read_string(bytes, pos)?;
    let column_type = read_column_type(bytes, pos)?;
    let flags: u8 = read_byte(bytes, pos)?;
    Ok(
        ColumnSchema {
            name,
            column_type,
            nullable: flags % 2 == 1,
            auto_increment: (flags / 2) % 2 == 1,
        },
    )
}

fn read_create_table(bytes: &[u8], pos: &mut usize) -> (r: Result<Entry, Error>)
    requires
        *old(pos) <= bytes@.len(),
    ensures
        *final(pos) <= bytes@.len(),
        decodes(r, *final(pos), dec_create_table(bytes@, *old(pos) as int)),
{
    let ghost whole = dec_create_table(bytes@, *pos as int);
    let table = read_string(bytes, pos)?;
    let flag: u8 = read_byte(bytes, pos)?;
    let mut primary_key: Option<String> = None;
    if flag == 1 {
        let name = read_string(bytes, pos)?;
        primary_key = Some(name);
    } else if flag != 0 {
        return Err(corrupt_tag("unknown primary-key flag ", flag));
    }
    let count: u32 = read_u32(bytes, pos)?;
    let mut columns: Vec<ColumnSchema> = Vec::new();
    let ghost start = *pos as int;
    let mut i: u32 = 0;
    while i < count
        invariant
            i <= count,
            *pos <= bytes@.len(),
            dec_columns(bytes@, start, i as nat) == Ok::<(Seq<ColumnSchemaV>, int), ErrorV>(
                (views(columns@), *pos as int),
            ),
            whole == dec_create_table(bytes@, *old(pos) as int),
            match dec_columns(bytes@, start, count as nat) {
                Ok((cs, at)) => whole == Ok::<(EntryV, int), ErrorV>(
                    (
                        EntryV::CreateTable {
                            table: table@,
                            columns: cs,
                            primary_key: opt_view(primary_key),
                        },
                        at,
                    ),
                ),
                Err(e) => whole == Err::<(EntryV, int), ErrorV>(e),
            },
        decreases count - i,
    {
        match read_column(bytes, pos) {
            Ok(c) => {
                columns.push(c);
            },
            Err(e) => {
                proof {
                    lemma_dec_columns_stops(bytes@, start, (i + 1) as nat, count as nat);
                }
                return Err(e);
            },
        }
        i = i + 1;
    }
    Ok(Entry::CreateTable { table, columns, primary_key })
}

fn read_transaction(bytes: &[u8], pos: &mut usize) -> (r: Result<Vec<(String, Vec<Value>)>, Error>)
    requires
        *old(pos) <= bytes@.len(),
    ensures
        *final(pos) <= bytes@.len(),
        match dec_u32(bytes@, *old(pos) as int) {
            Err(err) => r matches Err(e) && e@ == err,
            Ok((n, at)) => match r {
                Ok(rows) => dec_placed_rows(bytes@, at, n) == Ok::<(Seq<PlacedRow>, int), ErrorV>(
                    (placed_rows(rows@), *final(pos) as int),
                ),
                Err(e) => dec_placed_rows(bytes@, at, n) == Err::<(Seq<PlacedRow>, int), ErrorV>(
                    e@,
                ),
            },
        },
{
    let ghost first = dec_u32(bytes@, *pos as int);
    let count: u32 = read_u32(bytes, pos)?;
    let mut rows: Vec<(String, Vec<Value>)> = Vec::new();
    let ghost start = *pos as int;
    proof {
        assert(placed_rows(rows@) =~= Seq::empty());
    }
    let mut i: u32 = 0;
    while i < count
        invariant
            i <= count,
            *pos <= bytes@.len(),
            dec_placed_rows(bytes@, start, i as nat) == Ok::<(Seq<PlacedRow>, int), ErrorV>(
                (placed_rows(rows@), *pos as int),
            ),
            first == Ok::<(nat, int), ErrorV>((count as nat, start)),
            first == dec_u32(bytes@, *old(pos) as int),
        decreases count - i,
    {
        match read_placed(bytes, pos) {
            Ok(p) => {
                proof {
                    assert(placed_rows(rows@.push(p)) =~= placed_rows(rows@).push(placed(p)));
                }
                rows.push(p);
            },
            Err(e) => {
                proof {
                    lemma_dec_placed_rows_stops(bytes@, start, (i + 1) as nat, count as nat);
                }
                return Err(e);
            },
        }
        i = i + 1;
    }
    Ok(rows)
}

/// Read the entry that a record's payload holds.
pub fn decode_entry(bytes: &[u8]) -> (r: Result<Entry, Error>)
    ensures
        match r {
            Ok(e) => dec_entry(bytes@) == Ok::<EntryV, ErrorV>(e@),
            Err(e) => dec_entry(bytes@) == Err::<EntryV, ErrorV>(e@),
        },
{
    proof {
        reveal(dec_entry);
    }
    let mut pos: usize = 0;
    let tag: u8 = read_byte(bytes, &mut pos)?;
    if tag == TAG_CREATE_TABLE {
        read_create_table(bytes, &mut pos)
    } else if tag == TAG_INSERT_ROW {
        let (table, row) = read_placed(bytes, &mut pos)?;
        Ok(Entry::InsertRow { table, row })
    } else if tag == TAG_TRANSACTION {
        let rows = read_transaction(bytes, &mut pos)?;
        Ok(Entry::Transaction { rows })
    } else if tag == TAG_CREATE_DATABASE {
        let name = read_string(bytes, &mut pos)?;
        Ok(Entry::CreateDatabase { name })
    } else if tag == TAG_DROP_DATABASE {
        let name = read_string(bytes, &mut pos)?;
        Ok(Entry::DropDatabase { name })
    } else {
        Err(corrupt_tag("unknown entry tag ", tag))
    }
}

// ---------- replay ----------

/// What stands at one place of a log.
pub ghost enum RecordV {
    /// A complete record, and the place behind it.
    Whole { entry: EntryV, next: int },
    /// Nothing decodable: what an interrupted write leaves behind.
    Torn,
}

/// The error for damage that no interrupted write explains.
pub open spec fn damaged() -> ErrorV {
    corrupted("checksum mismatch with valid data still following it"@)
}

/// What a record with a checked length and checksum comes to.
pub open spec fn checked_record(
    len: nat,
    crc: nat,
    payload: Seq<u8>,
    end: int,
    file_len: int,
) -> Result<RecordV, ErrorV> {
    if checksum(len, payload) as nat != crc {
        if end == file_len {
            Ok(RecordV::Torn)
        } else {
            Err(damaged())
        }
    } else {
        match dec_entry(payload) {
            Ok(entry) => Ok(RecordV::Whole { entry, next: end }),
            Err(e) => Err(e),
        }
    }
}

/// What stands at `pos` in the log `file`.
pub open spec fn record_at(file: Seq<u8>, pos: int) -> Result<RecordV, ErrorV> {
    if pos + 8 > file.len() {
        Ok(RecordV::Torn)
    } else {
        let len = le_value(file.subrange(pos, pos + 4));
        let crc = le_value(file.subrange(pos + 4, pos + 8));
        let end = pos + 8 + len;
        if end > file.len() {
            Ok(RecordV::Torn)
        } else {
            checked_record(len, crc, file.subrange(pos + 8, end), end, file.len() as int)
        }
    }
}

/// The entries of `file` from `pos` on, and where the last good record ends.
pub open spec fn replay_from(file: Seq<u8>, pos: int) -> Result<(Seq<EntryV>, int), ErrorV>
    decreases file.len() - pos,
{
    match record_at(file, pos) {
        Err(e) => Err(e),
        Ok(RecordV::Torn) => Ok((Seq::empty(), pos)),
        Ok(RecordV::Whole { entry, next }) => if pos < next <= file.len() {
            after_entries(seq![entry], replay_from(file, next))
        } else {
            Ok((seq![entry], next))
        },
    }
}

/// `es` in front of what is replayed next.
pub open spec fn after_entries(es: Seq<EntryV>, r: Result<(Seq<EntryV>, int), ErrorV>) -> Result<
    (Seq<EntryV>, int),
    ErrorV,
> {
    match r {
        Ok((rest, end)) => Ok((es + rest, end)),
        Err(e) => Err(e),
    }
}

/// What a record's header says.
pub enum HeaderRead {
    /// The claimed length runs past the end of the log.
    TornTail,
    /// A payload of `len` bytes follows, ending at `end`.
    Payload { len: u32, crc: u32, end: u64 },
}

/// The outcome of reading one record.
pub enum StreamRecordRead {
    /// A complete, checksum-verified, decoded record.
    Record { entry: Entry, next_pos: u64 },
    /// Nothing decodable follows.
    TornTail,
}

/// Whether an outcome is what stands in the log.
pub open spec fn reads_record(
    r: Result<StreamRecordRead, Error>,
    record: Result<RecordV, ErrorV>,
) -> bool {
    match r {
        Ok(StreamRecordRead::Record { entry, next_pos }) => record == Ok::<RecordV, ErrorV>(
            RecordV::Whole { entry: entry@, next: next_pos as int },
        ),
        Ok(StreamRecordRead::TornTail) => record == Ok::<RecordV, ErrorV>(RecordV::Torn),
        Err(e) => record == Err::<RecordV, ErrorV>(e@),
    }
}

/// Interpret the eight header bytes of the record at `pos` in a log of
/// `file_len` bytes. The claimed length is held against the log's size before
/// anything of that length is read.
pub fn read_header(header: &[u8], pos: u64, file_len: u64) -> (r: HeaderRead)
    requires
        header@.len() == 8,
    ensures
        ({
            let end = pos + 8 + le_value(header@.subrange(0, 4));
            match r {
                HeaderRead::Payload { len, crc, end: e } => {
                    &&& len == le_value(header@.subrange(0, 4))
                    &&& crc == le_value(header@.subrange(4, 8))
                    &&& e == end
                    &&& end <= file_len
                },
                HeaderRead::TornTail => end > file_len,
            }
        }),
{
    proof {
        lemma_le_value_bound(header@.subrange(0, 4));
        lemma_le_value_bound(header@.subrange(4, 8));
        lemma_pow256();
    }
    let len: u64 = read_le(header, 0, 4);
    let crc: u64 = read_le(header, 4, 4);
    match pos.checked_add(8) {
        None => HeaderRead::TornTail,
        Some(after_header) => match after_header.checked_add(len) {
            None => HeaderRead::TornTail,
            Some(end) => if end > file_len {
                HeaderRead::TornTail
            } else {
                HeaderRead::Payload { len: len as u32, crc: crc as u32, end }
            },
        },
    }
}

/// Check and decode the payload of a record that ends at `end` in a log of
/// `file_len` bytes.
pub fn finish_record(len: u32, crc: u32, payload: &[u8], end: u64, file_len: u64) -> (r: Result<
    StreamRecordRead,
    Error,
>)
    ensures
        reads_record(
            r,
            checked_record(len as nat, crc as nat, payload@, end as int, file_len as int),
        ),
{
    if record_crc(len as u64, payload) != crc {
        return if end == file_len {
            Ok(StreamRecordRead::TornTail)
        } else {
            Err(corrupt("checksum mismatch with valid data still following it"))
        };
    }
    let entry = decode_entry(payload)?;
    Ok(StreamRecordRead::Record { entry, next_pos: end })
}

/// Read the record at `pos` of a whole log.
pub fn read_one_record(file: &[u8], pos: usize) -> (r: Result<StreamRecordRead, Error>)
    requires
        pos <= file@.len(),
    ensures
        reads_record(r, record_at(file@, pos as int)),
        r matches Ok(StreamRecordRead::Record { next_pos, .. }) ==> pos < next_pos <= file@.len(),
{
    let file_len: usize = file.len();
    if file_len - pos < 8 {
        return Ok(StreamRecordRead::TornTail);
    }
    let header = vstd::slice::slice_subrange(file, pos, pos + 8);
    proof {
        assert(header@.subrange(0, 4) =~= file@.subrange(pos as int, pos + 4));
        assert(header@.subrange(4, 8) =~= file@.subrange(pos + 4, pos + 8));
    }
    match read_header(header, pos as u64, file_len as u64) {
        HeaderRead::TornTail => Ok(StreamRecordRead::TornTail),
        HeaderRead::Payload { len, crc, end } => {
            let payload = vstd::slice::slice_subrange(file, pos + 8, end as usize);
            finish_record(len, crc, payload, end, file_len as u64)
        },
    }
}

/// Replay a whole log: its entries in order, and the length up to which it is
/// good. What lies beyond is a torn tail.
pub fn replay(file: &[u8]) -> (r: Result<(Vec<Entry>, usize), Error>)
    ensures
        match r {
            Ok((es, good)) => replay_from(file@, 0) == Ok::<(Seq<EntryV>, int), ErrorV>(
                (views(es@), good as int),
            ) && good <= file@.len(),
            Err(e) => replay_from(file@, 0) == Err::<(Seq<EntryV>, int), ErrorV>(e@),
        },
{
    let mut entries: Vec<Entry> = Vec::new();
    let mut pos: usize = 0;
    let _len: usize = file.len();
    proof {
        let whole = replay_from(file@, 0);
        assert(after_entries(views(entries@), whole) == whole) by {
            match whole {
                Ok((rest, _)) => assert(views(entries@) + rest =~= rest),
                Err(_) => {},
            }
        }
    }
    loop
        invariant
            pos <= file@.len() <= usize::MAX,
            replay_from(file@, 0) == after_entries(views(entries@), replay_from(file@, pos as int)),
        decreases file@.len() - pos,
    {
        match read_one_record(file, pos) {
            Err(e) => {
                return Err(e);
            },
            Ok(StreamRecordRead::TornTail) => {
                proof {
                    assert(views(entries@) + Seq::<EntryV>::empty() =~= views(entries@));
                }
                return Ok((entries, pos));
            },
            Ok(StreamRecordRead::Record { entry, next_pos }) => {
                proof {
                    match replay_from(file@, next_pos as int) {
                        Ok((rest, _)) => assert(views(entries@) + (seq![entry@] + rest) =~= views(
                            entries@,
                        ).push(entry@) + rest),
                        Err(_) => {},
                    }
                }
                entries.push(entry);
                pos = next_pos as usize;
            },
        }
    }
}

/// The records of a batch as one buffer, to be written at once.
pub fn join_records(batch: &[Vec<u8>]) -> (r: Vec<u8>)
    ensures
        r@ == joined(Seq::new(batch@.len(), |i: int| batch@[i]@)),
{
    let ghost parts = Seq::new(batch@.len(), |i: int| batch@[i]@);
    let mut buf: Vec<u8> = Vec::new();
    let mut i: usize = 0;
    proof {
        assert(parts.take(0) =~= Seq::empty());
    }
    while i < batch.len()
        invariant
            i <= batch@.len(),
            parts == Seq::new(batch@.len(), |i: int| batch@[i]@),
            buf@ == joined(parts.take(i as int)),
        decreases batch@.len() - i,
    {
        push_bytes(&mut buf, batch[i].as_slice());
        proof {
            assert(parts.take(i + 1).drop_last() =~= parts.take(i as int));
            assert(parts.take(i + 1).last() == batch@[i as int]@);
        }
        i = i + 1;
    }
    proof {
        assert(parts.take(batch@.len() as int) =~= parts);
    }
    buf
}

/// Byte sequences one after the other.
pub open spec fn joined(parts: Seq<Seq<u8>>) -> Seq<u8>
    decreases parts.len(),
{
    if parts.len() == 0 {
        Seq::empty()
    } else {
        joined(parts.drop_last()) + parts.last()
    }
}

} // verus!
