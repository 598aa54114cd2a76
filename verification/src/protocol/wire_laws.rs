//! What a client reads is what it was sent.
use vstd::prelude::*;
use vstd::utf8::encode_utf8;

use crate::bytes::{le, lemma_le_len, unsigned64};
use crate::numerals::{is_numeral_of, law_numbers_are_written_as_their_numerals};
use crate::protocol::lenenc::{enc_int, enc_str};
use crate::protocol::packet::PacketV;
use crate::protocol::prepared::prepare_payload;
use crate::protocol::reading::{
    count_at, i64_at, lemma_count_reads, lemma_fixed_reads, lemma_parts_stand, lemma_stands_bytes, lemma_text_between_reads,
    lemma_text_reads, stands_at, text_at, text_between, u16_at, u24_at, u32_at,
};
use crate::protocol::response::{ok_payload, ErrPacketV};
use crate::protocol::resultset::{
    binary_cell, binary_cells, binary_row, eof, law_bitmap_marks_nulls, null_bitmap, row_packet,
    seq_after, terminator, text_cell, text_cells, text_row, wires, CellV, ColumnDefinitionV,
    ColumnType, ResultSetV,
};
use crate::text::decimal_int;

verus! {

// ---------- rows ----------

/// A cell of a text row at `i`, and the place behind it: `None` for `NULL`.
pub open spec fn text_cell_at(b: Seq<u8>, i: int) -> Option<(Option<Seq<char>>, int)> {
    if 0 <= i < b.len() && b[i] == 251 {
        Some((None, i + 1))
    } else {
        match text_at(b, i) {
            Some((s, j)) => Some((Some(s), j)),
            None => None,
        }
    }
}

/// Whether a cell's text in a text row is that of the cell: none for `NULL`,
/// the text itself, or the numeral of a number.
pub open spec fn shows_cell(c: CellV, t: Option<Seq<char>>) -> bool {
    match c {
        CellV::Null => t is None,
        CellV::Text(s) => t == Some(s),
        CellV::Int(n) => t matches Some(s) && is_numeral_of(s, n as int),
    }
}

/// Whether reading `b` cell by cell from `i` gives just these cells and then
/// the end.
pub open spec fn reads_as_text_cells(b: Seq<u8>, i: int, cells: Seq<CellV>) -> bool
    decreases cells.len(),
{
    if cells.len() == 0 {
        i == b.len()
    } else {
        match text_cell_at(b, i) {
            None => false,
            Some((t, j)) => shows_cell(cells[0], t) && reads_as_text_cells(
                b,
                j,
                cells.drop_first(),
            ),
        }
    }
}

proof fn lemma_text_cells_front(cells: Seq<CellV>)
    requires
        cells.len() > 0,
    ensures
        text_cells(cells) == text_cell(cells[0]) + text_cells(cells.drop_first()),
    decreases cells.len(),
{
    let rest = cells.drop_first();
    if rest.len() == 0 {
        assert(cells.drop_last() =~= Seq::empty());
        assert(text_cells(cells.drop_last()) =~= Seq::empty());
        assert(text_cells(rest) =~= Seq::empty());
        assert(text_cells(cells) =~= text_cell(cells[0]) + text_cells(rest));
    } else {
        lemma_text_cells_front(cells.drop_last());
        assert(cells.drop_last().drop_first() =~= rest.drop_last());
        assert(rest.last() == cells.last());
        assert(text_cells(cells) =~= text_cell(cells[0]) + text_cells(rest));
    }
}

proof fn lemma_text_cell_reads(b: Seq<u8>, i: int, c: CellV)
    requires
        stands_at(b, i, text_cell(c)),
        b.len() < 0x1_0000_0000_0000_0000,
    ensures
        text_cell_at(b, i) matches Some((t, j)) && shows_cell(c, t) && j == i + text_cell(c).len(),
{
    lemma_stands_bytes(b, i, text_cell(c));
    match c {
        CellV::Null => {
            assert(text_cell(c)[0] == b[i + 0]);
        },
        CellV::Text(s) => {
            assert(enc_str(s).len() >= encode_utf8(s).len());
            lemma_text_reads(b, i, s);
            lemma_not_null(b, i);
        },
        CellV::Int(n) => {
            let s = decimal_int(n as int);
            law_numbers_are_written_as_their_numerals(n as int);
            assert(enc_str(s).len() >= encode_utf8(s).len());
            lemma_text_reads(b, i, s);
            lemma_not_null(b, i);
        },
    }
}

proof fn lemma_not_null(b: Seq<u8>, i: int)
    requires
        count_at(b, i) is Some,
    ensures
        b[i] != 251,
{
}

proof fn lemma_text_cells_read(b: Seq<u8>, i: int, cells: Seq<CellV>)
    requires
        stands_at(b, i, text_cells(cells)),
        b.len() == i + text_cells(cells).len(),
        b.len() < 0x1_0000_0000_0000_0000,
    ensures
        reads_as_text_cells(b, i, cells),
    decreases cells.len(),
{
    if cells.len() > 0 {
        let rest = cells.drop_first();
        lemma_text_cells_front(cells);
        lemma_parts_stand(b, i, text_cell(cells[0]), text_cells(rest));
        lemma_text_cell_reads(b, i, cells[0]);
        lemma_text_cells_read(b, (i + text_cell(cells[0]).len()) as int, rest);
    }
}

/// A text row reads back, cell by cell and to its end: `NULL` exactly where a
/// cell is `NULL`, the same text for a text, and for a number the numeral that
/// denotes it.
pub proof fn law_text_rows_read_back(cells: Seq<CellV>, seq: u8)
    ensures
        text_row(cells, seq) matches Ok(p) ==> p.sequence_id == seq && reads_as_text_cells(
            p.payload,
            0,
            cells,
        ) && p.payload.len() <= 0xff_ffff,
        text_row(cells, seq) is Ok <==> text_cells(cells).len() <= 0xff_ffff,
{
    match text_row(cells, seq) {
        Ok(p) => {
            assert(p.payload.subrange(0, p.payload.len() as int) =~= p.payload);
            lemma_text_cells_read(p.payload, 0, cells);
        },
        Err(_) => {},
    }
}

/// Different texts are sent differently.
pub proof fn law_different_texts_are_sent_differently(s: Seq<char>, t: Seq<char>)
    requires
        enc_str(s) == enc_str(t),
        encode_utf8(s).len() < 0x1_0000_0000_0000_0000,
        encode_utf8(t).len() < 0x1_0000_0000_0000_0000,
    ensures
        s == t,
{
    let b = enc_str(s);
    assert(b.subrange(0, b.len() as int) =~= b);
    lemma_text_reads(b, 0, s);
    lemma_text_reads(b, 0, t);
}

/// Whether reading `b` value by value from `i` gives just these cells and then
/// the end: eight bytes for a number, a length-encoded text for a text, and
/// nothing for `NULL`.
pub open spec fn reads_as_binary_cells(b: Seq<u8>, i: int, cells: Seq<CellV>) -> bool
    decreases cells.len(),
{
    if cells.len() == 0 {
        i == b.len()
    } else {
        match cells[0] {
            CellV::Null => reads_as_binary_cells(b, i, cells.drop_first()),
            CellV::Int(n) => 0 <= i && i + 8 <= b.len() && i64_at(b, i) == n
                && reads_as_binary_cells(b, i + 8, cells.drop_first()),
            CellV::Text(s) => text_at(b, i) matches Some((t, j)) && t == s
                && reads_as_binary_cells(b, j, cells.drop_first()),
        }
    }
}

proof fn lemma_binary_cells_front(cells: Seq<CellV>)
    requires
        cells.len() > 0,
    ensures
        binary_cells(cells) == binary_cell(cells[0]) + binary_cells(cells.drop_first()),
    decreases cells.len(),
{
    let rest = cells.drop_first();
    if rest.len() == 0 {
        assert(cells.drop_last() =~= Seq::empty());
        assert(binary_cells(cells.drop_last()) =~= Seq::empty());
        assert(binary_cells(rest) =~= Seq::empty());
        assert(binary_cells(cells) =~= binary_cell(cells[0]) + binary_cells(rest));
    } else {
        lemma_binary_cells_front(cells.drop_last());
        assert(cells.drop_last().drop_first() =~= rest.drop_last());
        assert(rest.last() == cells.last());
        assert(binary_cells(cells) =~= binary_cell(cells[0]) + binary_cells(rest));
    }
}

proof fn lemma_signed_reads(b: Seq<u8>, i: int, n: i64)
    requires
        stands_at(b, i, le(unsigned64(n as int), 8)),
    ensures
        i64_at(b, i) == n,
{
    lemma_fixed_reads(b, i, unsigned64(n as int), 8);
}

proof fn lemma_binary_cells_read(b: Seq<u8>, i: int, cells: Seq<CellV>)
    requires
        stands_at(b, i, binary_cells(cells)),
        b.len() == i + binary_cells(cells).len(),
        b.len() < 0x1_0000_0000_0000_0000,
    ensures
        reads_as_binary_cells(b, i, cells),
    decreases cells.len(),
{
    if cells.len() > 0 {
        let rest = cells.drop_first();
        lemma_binary_cells_front(cells);
        lemma_parts_stand(b, i, binary_cell(cells[0]), binary_cells(rest));
        lemma_binary_cells_read(b, (i + binary_cell(cells[0]).len()) as int, rest);
        match cells[0] {
            CellV::Null => {},
            CellV::Int(n) => {
                lemma_le_len(unsigned64(n as int), 8);
                lemma_signed_reads(b, i, n);
            },
            CellV::Text(s) => {
                assert(enc_str(s).len() >= encode_utf8(s).len());
                lemma_text_reads(b, i, s);
            },
        }
    }
}

/// Whether bit `i` of the bitmap at `at` is set; a byte's first bit is its
/// lowest.
pub open spec fn bit_at(b: Seq<u8>, at: int, i: int) -> bool {
    let byte = b[at + i / 8] as int;
    let shifted = match (i % 8) as u8 {
        0 => byte,
        1 => byte / 2,
        2 => byte / 4,
        3 => byte / 8,
        4 => byte / 16,
        5 => byte / 32,
        6 => byte / 64,
        _ => byte / 128,
    };
    shifted % 2 == 1
}

/// A bit is set exactly if a mask with it alone has it in common.
pub proof fn lemma_masks_are_bits(b: Seq<u8>, at: int, i: int)
    requires
        0 <= i,
    ensures
        bit_at(b, at, i) == (b[at + i / 8] & (1u8 << (i % 8) as u8) != 0),
{
    let x = b[at + i / 8];
    let k = (i % 8) as u8;
    assert((x & (1u8 << 0u8) != 0) == (x % 2 == 1)) by (bit_vector);
    assert((x & (1u8 << 1u8) != 0) == ((x / 2) % 2 == 1)) by (bit_vector);
    assert((x & (1u8 << 2u8) != 0) == ((x / 4) % 2 == 1)) by (bit_vector);
    assert((x & (1u8 << 3u8) != 0) == ((x / 8) % 2 == 1)) by (bit_vector);
    assert((x & (1u8 << 4u8) != 0) == ((x / 16) % 2 == 1)) by (bit_vector);
    assert((x & (1u8 << 5u8) != 0) == ((x / 32) % 2 == 1)) by (bit_vector);
    assert((x & (1u8 << 6u8) != 0) == ((x / 64) % 2 == 1)) by (bit_vector);
    assert((x & (1u8 << 7u8) != 0) == ((x / 128) % 2 == 1)) by (bit_vector);
    assert(k == 0 || k == 1 || k == 2 || k == 3 || k == 4 || k == 5 || k == 6 || k == 7);
}

/// Whether a binary row reads as these cells: behind a zero and the bitmap, in
/// which bit `i + 2` is set exactly if cell `i` is `NULL`, stand the others.
pub open spec fn reads_as_binary_row(b: Seq<u8>, cells: Seq<CellV>) -> bool {
    &&& b[0] == 0
    &&& forall|i: int| 0 <= i < cells.len() ==> (#[trigger] bit_at(b, 1, i + 2) <==> cells[i] is Null)
    &&& reads_as_binary_cells(b, 1 + (cells.len() as int + 9) / 8, cells)
}

/// A binary row reads back.
#[verifier::rlimit(40)]
pub proof fn law_binary_rows_read_back(cells: Seq<CellV>, seq: u8)
    ensures
        binary_row(cells, seq) matches Ok(p) ==> p.sequence_id == seq && reads_as_binary_row(
            p.payload,
            cells,
        ) && p.payload.len() <= 0xff_ffff,
{
    match binary_row(cells, seq) {
        Ok(p) => {
            let bitmap = null_bitmap(cells, cells.len() as int);
            let b = p.payload;
            let front = seq![0u8] + bitmap;
            assert(b.subrange(0, b.len() as int) =~= b);
            assert(b =~= front + binary_cells(cells));
            lemma_parts_stand(b, 0, front, binary_cells(cells));
            lemma_bitmap_len(cells, cells.len() as int);
            assert(b.subrange(1, (1 + bitmap.len()) as int) =~= bitmap);
            lemma_binary_cells_read(b, front.len() as int, cells);
            assert forall|i: int| 0 <= i < cells.len() implies (#[trigger] bit_at(b, 1, i + 2)
                <==> cells[i] is Null) by {
                law_bitmap_marks_nulls(cells, i);
                lemma_masks_are_bits(b, 1, i + 2);
                assert(b[1 + (i + 2) / 8] == bitmap[(i + 2) / 8]);
            }
        },
        Err(_) => {},
    }
}

proof fn lemma_bitmap_len(cells: Seq<CellV>, k: int)
    requires
        0 <= k <= cells.len(),
    ensures
        null_bitmap(cells, k).len() == (cells.len() as int + 9) / 8,
    decreases k,
{
    if k > 0 {
        lemma_bitmap_len(cells, k - 1);
    }
}

// ---------- column definitions ----------

/// Whether a column definition reads as that of a column: six texts, of which
/// the fifth and the sixth are its name, then the length 12, the collation,
/// the width and the type.
pub open spec fn reads_as_column(b: Seq<u8>, c: ColumnDefinitionV) -> bool {
    behind_texts(b, 0, seq!["def"@, ""@, ""@, ""@, c.name, c.name]) matches Some(h) && {
        &&& b.len() == h + 13
        &&& b[h] == 12
        &&& u16_at(b, h + 1) == 45
        &&& u32_at(b, h + 3) == 255
        &&& b[h + 7] == (match c.column_type {
            ColumnType::LongLong => 8u8,
            ColumnType::VarString => 253u8,
        })
        &&& u16_at(b, h + 8) == 0
        &&& b[h + 10] == 0
        &&& u16_at(b, h + 11) == 0
    }
}

/// The place behind these texts, if they stand one after the other at `i`.
pub open spec fn behind_texts(b: Seq<u8>, i: int, texts: Seq<Seq<char>>) -> Option<int>
    decreases texts.len(),
{
    if texts.len() == 0 {
        Some(i)
    } else {
        match text_at(b, i) {
            Some((s, j)) => if s == texts[0] {
                behind_texts(b, j, texts.drop_first())
            } else {
                None
            },
            None => None,
        }
    }
}

spec fn enc_texts(texts: Seq<Seq<char>>) -> Seq<u8>
    decreases texts.len(),
{
    if texts.len() == 0 {
        Seq::empty()
    } else {
        enc_str(texts[0]) + enc_texts(texts.drop_first())
    }
}

proof fn lemma_texts_read(b: Seq<u8>, i: int, texts: Seq<Seq<char>>)
    requires
        stands_at(b, i, enc_texts(texts)),
        b.len() < 0x1_0000_0000_0000_0000,
    ensures
        behind_texts(b, i, texts) == Some((i + enc_texts(texts).len()) as int),
    decreases texts.len(),
{
    if texts.len() > 0 {
        let rest = texts.drop_first();
        lemma_parts_stand(b, i, enc_str(texts[0]), enc_texts(rest));
        assert(enc_str(texts[0]).len() >= encode_utf8(texts[0]).len());
        lemma_text_reads(b, i, texts[0]);
        lemma_texts_read(b, (i + enc_str(texts[0]).len()) as int, rest);
    }
}

proof fn lemma_texts_push(texts: Seq<Seq<char>>, s: Seq<char>)
    ensures
        enc_texts(texts.push(s)) == enc_texts(texts) + enc_str(s),
    decreases texts.len(),
{
    let all = texts.push(s);
    if texts.len() == 0 {
        assert(all.drop_first() =~= Seq::empty());
        assert(enc_texts(all.drop_first()) =~= Seq::empty());
        assert(enc_texts(all) =~= enc_texts(texts) + enc_str(s));
    } else {
        lemma_texts_push(texts.drop_first(), s);
        assert(all.drop_first() =~= texts.drop_first().push(s));
        assert(enc_texts(all) =~= enc_texts(texts) + enc_str(s));
    }
}

proof fn lemma_column_texts(name: Seq<char>)
    ensures
        enc_texts(seq!["def"@, ""@, ""@, ""@, name, name]) == enc_str("def"@) + enc_str(""@)
            + enc_str(""@) + enc_str(""@) + enc_str(name) + enc_str(name),
{
    let s0 = Seq::<Seq<char>>::empty();
    let s1 = s0.push("def"@);
    let s2 = s1.push(""@);
    let s3 = s2.push(""@);
    let s4 = s3.push(""@);
    let s5 = s4.push(name);
    let s6 = s5.push(name);
    lemma_texts_push(s0, "def"@);
    lemma_texts_push(s1, ""@);
    lemma_texts_push(s2, ""@);
    lemma_texts_push(s3, ""@);
    lemma_texts_push(s4, name);
    lemma_texts_push(s5, name);
    assert(enc_texts(s1) =~= enc_str("def"@));
    assert(s6 =~= seq!["def"@, ""@, ""@, ""@, name, name]);
}

/// A column definition reads back.
#[verifier::rlimit(40)]
pub proof fn law_column_definitions_read_back(c: ColumnDefinitionV, seq: u8)
    ensures
        c.packet(seq) matches Ok(p) ==> p.sequence_id == seq && reads_as_column(p.payload, c)
            && p.payload.len() <= 0xff_ffff,
{
    reveal(ColumnDefinitionV::packet);
    match c.packet(seq) {
        Ok(p) => {
            let b = p.payload;
            let code = crate::protocol::resultset::type_code(c.column_type);
            let names = seq!["def"@, ""@, ""@, ""@, c.name, c.name];
            let texts = enc_texts(names);
            let t9 = seq![0u8, 0u8, 0u8];
            let t8 = le(0, 2) + t9;
            let t7 = seq![code] + t8;
            let t6 = le(255, 4) + t7;
            let t5 = le(45, 2) + t6;
            let t4 = seq![0x0cu8] + t5;
            lemma_column_texts(c.name);
            assert(b =~= texts + t4);
            lemma_le_len(0, 2);
            lemma_le_len(255, 4);
            lemma_le_len(45, 2);
            assert(b.subrange(0, b.len() as int) =~= b);
            lemma_parts_stand(b, 0, texts, t4);
            lemma_texts_read(b, 0, names);
            let h = texts.len() as int;
            lemma_stands_bytes(b, h, t4);
            assert(t4[0] == b[h + 0]);
            lemma_parts_stand(b, h, seq![0x0cu8], t5);
            lemma_parts_stand(b, h + 1, le(45, 2), t6);
            lemma_fixed_reads(b, h + 1, 45, 2);
            lemma_parts_stand(b, h + 3, le(255, 4), t7);
            lemma_fixed_reads(b, h + 3, 255, 4);
            lemma_stands_bytes(b, h + 7, t7);
            assert(t7[0] == b[h + 7 + 0]);
            lemma_parts_stand(b, h + 7, seq![code], t8);
            lemma_parts_stand(b, h + 8, le(0, 2), t9);
            lemma_fixed_reads(b, h + 8, 0, 2);
            lemma_stands_bytes(b, h + 10, t9);
            assert(t9[0] == b[h + 10 + 0]);
            assert(t9[1] == b[h + 10 + 1]);
            assert(t9[2] == b[h + 10 + 2]);
        },
        Err(_) => {},
    }
}

// ---------- responses ----------

/// An OK packet reads back: a zero, the two length-encoded numbers, the flags,
/// the warnings and the text.
#[verifier::rlimit(40)]
pub proof fn law_ok_packets_read_back(
    affected_rows: u64,
    last_insert_id: u64,
    status_flags: u16,
    warnings: u16,
    info: Seq<char>,
)
    ensures
        ({
            let b = ok_payload(
                affected_rows as nat,
                last_insert_id as nat,
                status_flags as nat,
                warnings as nat,
                info,
            );
            &&& b[0] == 0
            &&& count_at(b, 1) matches Some((n, i)) && n == affected_rows && (count_at(
                b,
                i,
            ) matches Some((m, j)) && m == last_insert_id && u16_at(b, j) == status_flags && u16_at(
                b,
                j + 2,
            ) == warnings && text_between(b, j + 4, b.len() as int) == Some(info))
        }),
{
    let a = enc_int(affected_rows as nat);
    let l = enc_int(last_insert_id as nat);
    let f = le(status_flags as nat, 2);
    let w = le(warnings as nat, 2);
    let t = encode_utf8(info);
    let b = ok_payload(
        affected_rows as nat,
        last_insert_id as nat,
        status_flags as nat,
        warnings as nat,
        info,
    );
    lemma_le_len(status_flags as nat, 2);
    lemma_le_len(warnings as nat, 2);
    lemma_parts_in_order(b, seq![0u8], a, l, f, w, t);
    lemma_count_reads(b, 1, affected_rows as nat);
    let i = 1 + a.len() as int;
    lemma_count_reads(b, i, last_insert_id as nat);
    let j = i + l.len() as int;
    lemma_fixed_reads(b, j, status_flags as nat, 2);
    lemma_fixed_reads(b, j + 2, warnings as nat, 2);
    lemma_text_between_reads(b, j + 4, info);
}

#[verifier::rlimit(40)]
pub proof fn lemma_parts_in_order(
    b: Seq<u8>,
    h: Seq<u8>,
    a: Seq<u8>,
    l: Seq<u8>,
    f: Seq<u8>,
    w: Seq<u8>,
    t: Seq<u8>,
)
    requires
        b == h + a + l + f + w + t,
    ensures
        stands_at(b, 0, h),
        stands_at(b, h.len() as int, a),
        stands_at(b, (h.len() + a.len()) as int, l),
        stands_at(b, (h.len() + a.len() + l.len()) as int, f),
        stands_at(b, (h.len() + a.len() + l.len() + f.len()) as int, w),
        stands_at(b, (h.len() + a.len() + l.len() + f.len() + w.len()) as int, t),
        b.len() == h.len() + a.len() + l.len() + f.len() + w.len() + t.len(),
        h.len() > 0 ==> b[0] == h[0],
{
    assert(b.subrange(0, b.len() as int) =~= b);
    lemma_parts_stand(b, 0, h + a + l + f + w, t);
    lemma_parts_stand(b, 0, h + a + l + f, w);
    lemma_parts_stand(b, 0, h + a + l, f);
    lemma_parts_stand(b, 0, h + a, l);
    lemma_parts_stand(b, 0, h, a);
    lemma_stands_bytes(b, 0, h);
}

/// An ERR packet reads back: 255, the code, a `#`, the five bytes of the
/// SQLSTATE and the message.
#[verifier::rlimit(40)]
pub proof fn law_err_packets_read_back(e: ErrPacketV)
    requires
        e.error_code < 0x1_0000,
        e.sql_state.len() == 5,
    ensures
        e.payload()[0] == 255,
        u16_at(e.payload(), 1) == e.error_code,
        e.payload()[3] == 35,
        e.payload().subrange(4, 9) == e.sql_state,
        text_between(e.payload(), 9, e.payload().len() as int) == Some(e.message),
{
    let b = e.payload();
    let c = le(e.error_code, 2);
    let t = encode_utf8(e.message);
    let rest = seq![0x23u8] + (e.sql_state + t);
    lemma_le_len(e.error_code, 2);
    assert(b =~= seq![0xffu8] + (c + rest));
    assert(b.subrange(0, b.len() as int) =~= b);
    lemma_parts_stand(b, 0, seq![0xffu8], c + rest);
    lemma_parts_stand(b, 1, c, rest);
    lemma_fixed_reads(b, 1, e.error_code, 2);
    lemma_parts_stand(b, 3, seq![0x23u8], e.sql_state + t);
    lemma_parts_stand(b, 4, e.sql_state, t);
    lemma_text_between_reads(b, 9, e.message);
}

/// The answer to a prepared statement reads back: a zero, its id, the number
/// of columns, the number of parameters, a filler and no warnings.
#[verifier::rlimit(40)]
pub proof fn law_prepare_answers_read_back(statement_id: u32, num_columns: u16, num_params: u16)
    ensures
        ({
            let b = prepare_payload(statement_id as nat, num_columns as nat, num_params as nat);
            &&& b.len() == 12
            &&& b[0] == 0
            &&& u32_at(b, 1) == statement_id
            &&& u16_at(b, 5) == num_columns
            &&& u16_at(b, 7) == num_params
            &&& b[9] == 0
            &&& u16_at(b, 10) == 0
        }),
{
    let b = prepare_payload(statement_id as nat, num_columns as nat, num_params as nat);
    let s = le(statement_id as nat, 4);
    let c = le(num_columns as nat, 2);
    let p = le(num_params as nat, 2);
    let w = le(0, 2);
    lemma_le_len(statement_id as nat, 4);
    lemma_le_len(num_columns as nat, 2);
    lemma_le_len(num_params as nat, 2);
    lemma_le_len(0, 2);
    assert(b =~= seq![0u8] + (s + (c + (p + (seq![0u8] + w)))));
    assert(b.subrange(0, b.len() as int) =~= b);
    lemma_parts_stand(b, 0, seq![0u8], s + (c + (p + (seq![0u8] + w))));
    lemma_parts_stand(b, 1, s, c + (p + (seq![0u8] + w)));
    lemma_fixed_reads(b, 1, statement_id as nat, 4);
    lemma_parts_stand(b, 5, c, p + (seq![0u8] + w));
    lemma_fixed_reads(b, 5, num_columns as nat, 2);
    lemma_parts_stand(b, 7, p, seq![0u8] + w);
    lemma_fixed_reads(b, 7, num_params as nat, 2);
    lemma_parts_stand(b, 9, seq![0u8], w);
    lemma_fixed_reads(b, 10, 0, 2);
}

/// A packet on the wire is its length in three bytes, its sequence id and its
/// payload.
pub proof fn law_packets_announce_their_length(p: PacketV)
    requires
        p.payload.len() <= 0xff_ffff,
    ensures
        p.wire().len() == 4 + p.payload.len(),
        u24_at(p.wire(), 0) == p.payload.len(),
        p.wire()[3] == p.sequence_id,
        p.wire().subrange(4, p.wire().len() as int) == p.payload,
{
    let b = p.wire();
    let n = le(p.payload.len(), 3);
    let rest = seq![p.sequence_id] + p.payload;
    lemma_le_len(p.payload.len(), 3);
    assert(b =~= n + rest);
    assert(b.subrange(0, b.len() as int) =~= b);
    lemma_parts_stand(b, 0, n, rest);
    lemma_fixed_reads(b, 0, p.payload.len(), 3);
    assert(b.subrange(4, b.len() as int) =~= p.payload);
}

// ---------- result sets ----------

/// Whether a packet ends a part of a result set: 254, no warnings and the
/// flags.
pub open spec fn reads_as_eof(b: Seq<u8>, status_flags: nat) -> bool {
    &&& b.len() == 5
    &&& b[0] == 254
    &&& u16_at(b, 1) == 0
    &&& u16_at(b, 3) == status_flags
}

/// Whether a packet ends a result set for a client that takes no EOF packets:
/// an OK packet with the header 254.
pub open spec fn reads_as_final_ok(b: Seq<u8>, status_flags: nat) -> bool {
    &&& b.len() == 7
    &&& b[0] == 254
    &&& b[1] == 0
    &&& b[2] == 0
    &&& u16_at(b, 3) == status_flags
    &&& u16_at(b, 5) == 0
}

#[verifier::rlimit(40)]
pub proof fn lemma_ends_read(status_flags: nat, seq: u8)
    requires
        status_flags < 0x1_0000,
    ensures
        reads_as_eof(eof(status_flags, seq).payload, status_flags),
        eof(status_flags, seq).sequence_id == seq,
        reads_as_eof(terminator(false, status_flags, seq).payload, status_flags),
        reads_as_final_ok(terminator(true, status_flags, seq).payload, status_flags),
        terminator(true, status_flags, seq).sequence_id == seq,
        terminator(false, status_flags, seq).sequence_id == seq,
{
    reveal(eof);
    reveal(terminator);
    let f = le(status_flags, 2);
    let w = le(0, 2);
    lemma_le_len(status_flags, 2);
    lemma_le_len(0, 2);
    let b = eof(status_flags, seq).payload;
    assert(b =~= seq![0xfeu8] + (w + f));
    assert(b.subrange(0, b.len() as int) =~= b);
    lemma_parts_stand(b, 0, seq![0xfeu8], w + f);
    lemma_parts_stand(b, 1, w, f);
    lemma_fixed_reads(b, 1, 0, 2);
    lemma_fixed_reads(b, 3, status_flags, 2);
    let c = terminator(true, status_flags, seq).payload;
    assert(c =~= seq![0xfeu8, 0u8, 0u8] + (f + w));
    assert(c.subrange(0, c.len() as int) =~= c);
    lemma_parts_stand(c, 0, seq![0xfeu8, 0u8, 0u8], f + w);
    lemma_parts_stand(c, 3, f, w);
    lemma_fixed_reads(c, 3, status_flags, 2);
    lemma_fixed_reads(c, 5, 0, 2);
}

/// Whether a row packet reads as these cells, in its protocol.
pub open spec fn reads_as_row(b: Seq<u8>, binary: bool, cells: Seq<CellV>) -> bool {
    if binary {
        reads_as_binary_row(b, cells)
    } else {
        reads_as_text_cells(b, 0, cells)
    }
}

/// How many packets come before the first row.
pub open spec fn before_rows(r: ResultSetV, deprecate_eof: bool) -> int {
    if deprecate_eof {
        r.columns.len() + 1int
    } else {
        r.columns.len() + 2int
    }
}

/// Whether packets read as a result set: the number of columns, each column's
/// definition, for most clients an EOF packet, each row, and what ends it, with
/// sequence ids that count on from `start`.
pub open spec fn reads_as_result_set(
    ps: Seq<PacketV>,
    r: ResultSetV,
    binary: bool,
    deprecate_eof: bool,
    status_flags: nat,
    start: u8,
) -> bool {
    let n = r.columns.len() as int;
    let first = before_rows(r, deprecate_eof);
    &&& ps.len() == first + r.rows.len() + 1
    &&& forall|i: int|
        0 <= i < ps.len() ==> (#[trigger] ps[i]).sequence_id == (start + i) % 256
            && ps[i].payload.len() <= 0xff_ffff
    &&& count_at(ps[0].payload, 0) == Some((n, ps[0].payload.len() as int))
    &&& forall|i: int| 0 <= i < n ==> reads_as_column(ps[1 + i].payload, #[trigger] r.columns[i])
    &&& !deprecate_eof ==> reads_as_eof(ps[n + 1].payload, status_flags)
    &&& forall|i: int|
        0 <= i < r.rows.len() ==> reads_as_row(ps[first + i].payload, binary, #[trigger] r.rows[i])
    &&& if deprecate_eof {
        reads_as_final_ok(ps.last().payload, status_flags)
    } else {
        reads_as_eof(ps.last().payload, status_flags)
    }
}

proof fn lemma_heading(r: ResultSetV, start: u8, n: int)
    requires
        0 <= n <= r.columns.len(),
    ensures
        r.heading(start, n) matches Ok(ps) ==> {
            &&& ps.len() == n + 1
            &&& ps[0] == (PacketV { sequence_id: start, payload: enc_int(r.columns.len()) })
            &&& forall|i: int|
                0 <= i < n ==> #[trigger] r.columns[i].packet(seq_after(start, i + 1)) == Ok::<
                    PacketV,
                    crate::error::ErrorV,
                >(ps[i + 1])
        },
    decreases n,
{
    if n > 0 {
        lemma_heading(r, start, n - 1);
    }
}

proof fn lemma_body(
    r: ResultSetV,
    binary: bool,
    deprecate_eof: bool,
    status_flags: nat,
    start: u8,
    k: int,
)
    requires
        0 <= k <= r.rows.len(),
    ensures
        r.body(binary, deprecate_eof, status_flags, start, k) matches Ok(ps) ==> {
            let first = before_rows(r, deprecate_eof);
            &&& r.preamble(deprecate_eof, status_flags, start) matches Ok(front) && front.len()
                == first && ps.len() == first + k && ps.take(first) == front
            &&& forall|i: int|
                0 <= i < k ==> #[trigger] row_packet(r.rows[i], binary, seq_after(start, first + i))
                    == Ok::<PacketV, crate::error::ErrorV>(ps[first + i])
        },
    decreases k,
{
    let first = before_rows(r, deprecate_eof);
    if k > 0 {
        lemma_body(r, binary, deprecate_eof, status_flags, start, k - 1);
        match r.body(binary, deprecate_eof, status_flags, start, k) {
            Ok(ps) => {
                let before = r.body(binary, deprecate_eof, status_flags, start, k - 1)->Ok_0;
                assert(ps.take(first) =~= before.take(first));
                assert(row_packet(r.rows[k - 1], binary, seq_after(start, first + (k - 1))) == Ok::<
                    PacketV,
                    crate::error::ErrorV,
                >(ps[first + (k - 1)]));
            },
            Err(_) => {},
        }
    } else {
        lemma_heading(r, start, r.columns.len() as int);
        match r.preamble(deprecate_eof, status_flags, start) {
            Ok(front) => {
                assert(front.take(first) =~= front);
            },
            Err(_) => {},
        }
    }
}

/// A result set reads back, in either protocol.
#[verifier::rlimit(40)]
pub proof fn law_result_sets_read_back(
    r: ResultSetV,
    binary: bool,
    deprecate_eof: bool,
    status_flags: nat,
    start: u8,
)
    requires
        r.columns.len() < 0x1_0000_0000_0000_0000,
        status_flags < 0x1_0000,
    ensures
        r.packets(binary, deprecate_eof, status_flags, start) matches Ok(ps)
            ==> reads_as_result_set(ps, r, binary, deprecate_eof, status_flags, start),
{
    match r.packets(binary, deprecate_eof, status_flags, start) {
        Ok(ps) => {
            let n = r.columns.len() as int;
            let rows = r.rows.len() as int;
            let first = before_rows(r, deprecate_eof);
            lemma_body(r, binary, deprecate_eof, status_flags, start, rows);
            lemma_heading(r, start, n);
            let front = r.preamble(deprecate_eof, status_flags, start)->Ok_0;
            let heading = r.heading(start, n)->Ok_0;
            let body = r.body(binary, deprecate_eof, status_flags, start, rows)->Ok_0;
            assert forall|i: int| 0 <= i < first implies ps[i] == #[trigger] front[i] by {
                assert(body.take(first)[i] == body[i]);
            }
            assert forall|i: int| 0 <= i <= n implies front[i] == #[trigger] heading[i] by {}
            let b = ps[0].payload;
            assert(ps[0] == front[0] && front[0] == heading[0]);
            assert(b.subrange(0, b.len() as int) =~= b);
            lemma_count_reads(b, 0, r.columns.len());
            reveal(seq_after);
            assert forall|i: int| 0 <= i < n implies reads_as_column(
                ps[1 + i].payload,
                #[trigger] r.columns[i],
            ) && ps[1 + i].sequence_id == seq_after(start, 1 + i) && ps[1 + i].payload.len()
                <= 0xff_ffff by {
                assert(ps[1 + i] == front[1 + i] && front[1 + i] == heading[1 + i]);
                assert(r.columns[i].packet(seq_after(start, i + 1)) == Ok::<
                    PacketV,
                    crate::error::ErrorV,
                >(heading[i + 1]));
                law_column_definitions_read_back(r.columns[i], seq_after(start, i + 1));
            }
            if !deprecate_eof {
                assert(ps[n + 1] == front[n + 1]);
                lemma_ends_read(status_flags, seq_after(start, n + 1));
            }
            assert forall|i: int| 0 <= i < rows implies reads_as_row(
                ps[first + i].payload,
                binary,
                #[trigger] r.rows[i],
            ) && ps[first + i].sequence_id == seq_after(start, first + i) && ps[first
                + i].payload.len() <= 0xff_ffff by {
                assert(row_packet(r.rows[i], binary, seq_after(start, first + i)) == Ok::<
                    PacketV,
                    crate::error::ErrorV,
                >(ps[first + i]));
                reveal(row_packet);
                law_binary_rows_read_back(r.rows[i], seq_after(start, first + i));
                law_text_rows_read_back(r.rows[i], seq_after(start, first + i));
            }
            lemma_ends_read(status_flags, seq_after(start, first + rows));
            assert forall|i: int| 0 <= i < ps.len() implies (#[trigger] ps[i]).sequence_id == (start
                + i) % 256 && ps[i].payload.len() <= 0xff_ffff by {
                if 1 <= i <= n {
                    assert(r.columns[i - 1] == r.columns[i - 1]);
                    assert(reads_as_column(ps[1 + (i - 1)].payload, r.columns[i - 1]));
                } else if first <= i < first + rows {
                    assert(reads_as_row(ps[first + (i - first)].payload, binary, r.rows[i - first]));
                }
            }
        },
        Err(_) => {},
    }
}

/// Whether every definition and every row fits in a packet.
pub open spec fn fits_packets(r: ResultSetV, binary: bool) -> bool {
    &&& forall|i: int|
        0 <= i < r.columns.len() ==> (#[trigger] r.columns[i]).payload().len() <= 0xff_ffff
    &&& forall|i: int|
        0 <= i < r.rows.len() ==> row_fits(#[trigger] r.rows[i], binary)
}

/// Whether a row fits in a packet.
pub open spec fn row_fits(cells: Seq<CellV>, binary: bool) -> bool {
    if binary {
        1 + (cells.len() as int + 9) / 8 + binary_cells(cells).len() <= 0xff_ffff
    } else {
        text_cells(cells).len() <= 0xff_ffff
    }
}

proof fn lemma_heading_fits(r: ResultSetV, binary: bool, start: u8, n: int)
    requires
        0 <= n <= r.columns.len(),
        fits_packets(r, binary),
    ensures
        r.heading(start, n) is Ok,
    decreases n,
{
    if n > 0 {
        lemma_heading_fits(r, binary, start, n - 1);
        reveal(ColumnDefinitionV::packet);
        assert(r.columns[n - 1].payload().len() <= 0xff_ffff);
    }
}

proof fn lemma_body_fits(
    r: ResultSetV,
    binary: bool,
    deprecate_eof: bool,
    status_flags: nat,
    start: u8,
    k: int,
)
    requires
        0 <= k <= r.rows.len(),
        fits_packets(r, binary),
    ensures
        r.body(binary, deprecate_eof, status_flags, start, k) is Ok,
    decreases k,
{
    if k > 0 {
        lemma_body_fits(r, binary, deprecate_eof, status_flags, start, k - 1);
        reveal(row_packet);
        lemma_bitmap_len(r.rows[k - 1], r.rows[k - 1].len() as int);
        assert(row_fits(r.rows[k - 1], binary));
    } else {
        lemma_heading_fits(r, binary, start, r.columns.len() as int);
    }
}

/// A result set whose definitions and rows fit in packets is always sent.
pub proof fn law_result_sets_that_fit_are_sent(
    r: ResultSetV,
    binary: bool,
    deprecate_eof: bool,
    status_flags: nat,
    start: u8,
)
    requires
        fits_packets(r, binary),
    ensures
        r.packets(binary, deprecate_eof, status_flags, start) is Ok,
{
    lemma_body_fits(r, binary, deprecate_eof, status_flags, start, r.rows.len() as int);
}

// ---------- packets in a row ----------

/// Whether reading `b` packet by packet from `i` gives these packets and then
/// the end: each announces its length in three bytes, and its sequence id
/// follows.
pub open spec fn reads_as_packets(b: Seq<u8>, i: int, ps: Seq<PacketV>) -> bool
    decreases ps.len(),
{
    if ps.len() == 0 {
        i == b.len()
    } else {
        let n = u24_at(b, i);
        &&& 0 <= i
        &&& i + 4 + n <= b.len()
        &&& b[i + 3] == ps[0].sequence_id
        &&& b.subrange(i + 4, i + 4 + n) == ps[0].payload
        &&& reads_as_packets(b, i + 4 + n, ps.drop_first())
    }
}

proof fn lemma_wires_front(ps: Seq<PacketV>)
    requires
        ps.len() > 0,
    ensures
        wires(ps) == ps[0].wire() + wires(ps.drop_first()),
    decreases ps.len(),
{
    let rest = ps.drop_first();
    if rest.len() == 0 {
        assert(ps.drop_last() =~= Seq::empty());
        assert(wires(ps.drop_last()) =~= Seq::empty());
        assert(wires(rest) =~= Seq::empty());
        assert(wires(ps) =~= ps[0].wire() + wires(rest));
    } else {
        lemma_wires_front(ps.drop_last());
        assert(ps.drop_last().drop_first() =~= rest.drop_last());
        assert(rest.last() == ps.last());
        assert(wires(ps) =~= ps[0].wire() + wires(rest));
    }
}

proof fn lemma_packets_read(b: Seq<u8>, i: int, ps: Seq<PacketV>)
    requires
        stands_at(b, i, wires(ps)),
        b.len() == i + wires(ps).len(),
        forall|k: int| 0 <= k < ps.len() ==> (#[trigger] ps[k]).payload.len() <= 0xff_ffff,
    ensures
        reads_as_packets(b, i, ps),
    decreases ps.len(),
{
    if ps.len() > 0 {
        let p = ps[0];
        let rest = ps.drop_first();
        let n = p.payload.len();
        lemma_wires_front(ps);
        lemma_parts_stand(b, i, p.wire(), wires(rest));
        let head = le(n, 3);
        let id = seq![p.sequence_id];
        lemma_le_len(n, 3);
        assert(p.wire() =~= head + (id + p.payload));
        lemma_parts_stand(b, i, head, id + p.payload);
        lemma_fixed_reads(b, i, n, 3);
        lemma_parts_stand(b, i + 3, id, p.payload);
        lemma_stands_bytes(b, i + 3, id);
        assert(id[0] == b[i + 3 + 0]);
        assert forall|k: int| 0 <= k < rest.len() implies (#[trigger] rest[k]).payload.len()
            <= 0xff_ffff by {
            assert(rest[k] == ps[k + 1]);
        }
        lemma_packets_read(b, (i + p.wire().len()) as int, rest);
    }
}

/// Packets that are sent one after the other are read as they are.
pub proof fn law_packets_in_a_row_read_back(ps: Seq<PacketV>)
    requires
        forall|k: int| 0 <= k < ps.len() ==> (#[trigger] ps[k]).payload.len() <= 0xff_ffff,
    ensures
        reads_as_packets(wires(ps), 0, ps),
{
    let b = wires(ps);
    assert(b.subrange(0, b.len() as int) =~= b);
    lemma_packets_read(b, 0, ps);
}

/// So is a packet alone.
pub proof fn law_a_packet_reads_back(p: PacketV)
    requires
        p.payload.len() <= 0xff_ffff,
    ensures
        reads_as_packets(p.wire(), 0, seq![p]),
{
    law_packets_in_a_row_read_back(seq![p]);
    assert(seq![p].drop_last() =~= Seq::empty());
    assert(wires(seq![p].drop_last()) =~= Seq::empty());
    assert(wires(seq![p]) =~= p.wire());
}

} // verus!
