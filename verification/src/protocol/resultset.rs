//! Result-set encoding, in the text protocol (`COM_QUERY`) and the binary
//! protocol (prepared statements).
use vstd::prelude::*;

use crate::bytes::{
    le, lemma_le_len, push_bytes, push_le, push_repeated, to_unsigned64, unsigned64,
};
use crate::error::{Error, ErrorV};
use crate::protocol::lenenc::{
    enc_int, enc_str, push_lenenc_bytes, push_lenenc_int, write_lenenc_int,
};
use crate::protocol::packet::{builds, seal, sealed, Packet, PacketV, MAX_PAYLOAD};
use crate::seqs::{views, Duplicate};
use crate::text::{decimal_int, i64_text};

verus! {

broadcast use crate::seqs::group_views;

/// A column type code: the types that are produced here.
#[derive(Debug, Clone, Copy, PartialEq, Eq, Structural)]
pub enum ColumnType {
    /// `MYSQL_TYPE_LONGLONG`: a 64-bit integer.
    LongLong,
    /// `MYSQL_TYPE_VAR_STRING`: a variable-length string.
    VarString,
}

/// The type's code on the wire.
pub open spec fn type_code(t: ColumnType) -> u8 {
    match t {
        ColumnType::LongLong => 0x08,
        ColumnType::VarString => 0xfd,
    }
}

impl ColumnType {
    fn code(self) -> (r: u8)
        ensures
            r == type_code(self),
    {
        match self {
            ColumnType::LongLong => 0x08,
            ColumnType::VarString => 0xfd,
        }
    }
}

/// A single result-set cell, independent of the storage layer. It has to match
/// its column's type, so that text and binary rows stay consistent.
#[derive(Debug, Clone, PartialEq, Eq)]
pub enum Cell {
    Int(i64),
    Text(String),
    Null,
}

/// The content of a [`Cell`].
pub ghost enum CellV {
    Int(i64),
    Text(Seq<char>),
    Null,
}

impl View for Cell {
    type V = CellV;

    open spec fn view(&self) -> CellV {
        match self {
            Cell::Int(n) => CellV::Int(*n),
            Cell::Text(s) => CellV::Text(s@),
            Cell::Null => CellV::Null,
        }
    }
}

impl Duplicate for Cell {
    fn duplicate(&self) -> (r: Self) {
        match self {
            Cell::Int(n) => Cell::Int(*n),
            Cell::Text(s) => Cell::Text(s.clone()),
            Cell::Null => Cell::Null,
        }
    }
}

/// A cell in the text protocol: a length-encoded text, or the `NULL` marker.
pub open spec fn text_cell(c: CellV) -> Seq<u8> {
    match c {
        CellV::Int(n) => enc_str(decimal_int(n as int)),
        CellV::Text(s) => enc_str(s),
        CellV::Null => seq![0xfbu8],
    }
}

/// A cell in the binary protocol. `NULL` has no bytes: it is in the bitmap.
pub open spec fn binary_cell(c: CellV) -> Seq<u8> {
    match c {
        CellV::Int(n) => le(unsigned64(n as int), 8),
        CellV::Text(s) => enc_str(s),
        CellV::Null => Seq::empty(),
    }
}

/// The text-protocol cells of a row.
pub open spec fn text_cells(cells: Seq<CellV>) -> Seq<u8>
    decreases cells.len(),
{
    if cells.len() == 0 {
        Seq::empty()
    } else {
        text_cells(cells.drop_last()) + text_cell(cells.last())
    }
}

/// The binary-protocol cells of a row.
pub open spec fn binary_cells(cells: Seq<CellV>) -> Seq<u8>
    decreases cells.len(),
{
    if cells.len() == 0 {
        Seq::empty()
    } else {
        binary_cells(cells.drop_last()) + binary_cell(cells.last())
    }
}

/// How many bytes the `NULL` bitmap of `n` columns takes; its first two bits
/// are reserved.
pub open spec fn bitmap_len(n: int) -> int {
    (n + 2 + 7) / 8
}

/// The `NULL` bitmap with the bits of the first `k` cells set: bit `i + 2` for
/// column `i`.
pub open spec fn null_bitmap(cells: Seq<CellV>, k: int) -> Seq<u8>
    decreases k,
{
    if k <= 0 || k > cells.len() {
        Seq::new(bitmap_len(cells.len() as int) as nat, |i: int| 0u8)
    } else {
        let before = null_bitmap(cells, k - 1);
        if cells[k - 1] == CellV::Null {
            let byte = (k - 1 + 2) / 8;
            before.update(byte, before[byte] | (1u8 << ((k - 1 + 2) % 8) as u8))
        } else {
            before
        }
    }
}

/// Whether bit `i` of a bitmap is set.
pub open spec fn bit_set(bitmap: Seq<u8>, i: int) -> bool {
    bitmap[i / 8] & (1u8 << (i % 8) as u8) != 0
}

proof fn lemma_or_bit(x: u8, a: u8, b: u8)
    requires
        a < 8,
        b < 8,
    ensures
        ((x | (1u8 << a)) & (1u8 << b) != 0) == (a == b || x & (1u8 << b) != 0),
{
    assert(((x | (1u8 << a)) & (1u8 << b) != 0) == (a == b || x & (1u8 << b) != 0)) by (bit_vector)
        requires
            a < 8,
            b < 8,
    ;
}

proof fn lemma_bitmap(cells: Seq<CellV>, k: int, i: int)
    requires
        0 <= k <= cells.len(),
        0 <= i < cells.len(),
    ensures
        null_bitmap(cells, k).len() == bitmap_len(cells.len() as int),
        bit_set(null_bitmap(cells, k), i + 2) == (i < k && cells[i] == CellV::Null),
    decreases k,
{
    if k > 0 {
        lemma_bitmap(cells, k - 1, i);
        let before = null_bitmap(cells, k - 1);
        if cells[k - 1] == CellV::Null {
            let byte = (k + 1) / 8;
            lemma_or_bit(before[byte], ((k + 1) % 8) as u8, ((i + 2) % 8) as u8);
        }
    } else {
        let b = ((i + 2) % 8) as u8;
        assert(0u8 & (1u8 << b) == 0) by (bit_vector);
    }
}

/// In a row's bitmap, a column's bit is set exactly if its cell is `NULL`.
pub proof fn law_bitmap_marks_nulls(cells: Seq<CellV>, i: int)
    requires
        0 <= i < cells.len(),
    ensures
        bit_set(null_bitmap(cells, cells.len() as int), i + 2) == (cells[i] == CellV::Null),
{
    lemma_bitmap(cells, cells.len() as int, i);
}

/// A row in the text protocol.
pub open spec fn text_row(cells: Seq<CellV>, seq: u8) -> Result<PacketV, ErrorV> {
    sealed("row"@, seq, text_cells(cells))
}

/// A row in the binary protocol: a header, the bitmap and the cells.
pub open spec fn binary_row(cells: Seq<CellV>, seq: u8) -> Result<PacketV, ErrorV> {
    sealed(
        "binary row"@,
        seq,
        seq![0u8] + null_bitmap(cells, cells.len() as int) + binary_cells(cells),
    )
}

/// Encode a text-protocol result row.
pub fn encode_text_row(cells: &[Cell], sequence_id: u8) -> (r: Result<Packet, Error>)
    ensures
        builds(r, text_row(views(cells@), sequence_id)),
        r matches Ok(p) ==> p@.payload.len() <= MAX_PAYLOAD,
{
    let ghost cs = views(cells@);
    let mut payload: Vec<u8> = Vec::new();
    let mut i: usize = 0;
    proof {
        assert(cs.take(0) =~= Seq::empty());
    }
    while i < cells.len()
        invariant
            i <= cells@.len(),
            cs == views(cells@),
            payload@ == text_cells(cs.take(i as int)),
        decreases cells@.len() - i,
    {
        match &cells[i] {
            Cell::Int(n) => push_lenenc_bytes(&mut payload, i64_text(*n).as_str().as_bytes()),
            Cell::Text(s) => push_lenenc_bytes(&mut payload, s.as_str().as_bytes()),
            Cell::Null => payload.push(0xfb),
        }
        proof {
            assert(cs.take(i + 1).drop_last() =~= cs.take(i as int));
            assert(cs.take(i + 1).last() == cells@[i as int]@);
            assert(payload@ =~= text_cells(cs.take(i + 1)));
        }
        i = i + 1;
    }
    proof {
        assert(cs.take(cells@.len() as int) =~= cs);
    }
    seal("row", sequence_id, payload)
}

fn build_bitmap(cells: &[Cell]) -> (r: Vec<u8>)
    ensures
        r@ == null_bitmap(views(cells@), cells@.len() as int),
{
    let ghost cs = views(cells@);
    let n: usize = cells.len();
    let len: usize = n / 8 + (n % 8 + 9) / 8;
    let mut bitmap: Vec<u8> = Vec::new();
    push_repeated(&mut bitmap, 0, len);
    proof {
        assert(len == bitmap_len(n as int));
        assert(bitmap@ =~= null_bitmap(cs, 0));
    }
    let mut i: usize = 0;
    while i < n
        invariant
            i <= n,
            n == cells@.len(),
            cs == views(cells@),
            bitmap@ == null_bitmap(cs, i as int),
            bitmap@.len() == bitmap_len(n as int),
        decreases n - i,
    {
        proof {
            assert(cs[i as int] == cells@[i as int]@);
        }
        if matches!(&cells[i], Cell::Null) {
            let byte: usize = i / 8 + (i % 8 + 2) / 8;
            let bit: u8 = ((i % 8 + 2) % 8) as u8;
            proof {
                assert(byte == (i + 2) / 8);
                assert(bit == (i + 2) % 8);
                assert(byte < bitmap_len(n as int));
            }
            let old_byte: u8 = bitmap[byte];
            bitmap.set(byte, old_byte | (1u8 << bit));
        }
        i = i + 1;
    }
    bitmap
}

/// Encode a binary-protocol result row: a zero header, a `NULL` bitmap (in
/// which column `i` has bit `i + 2`), and each value that is not `NULL` in its
/// binary form.
pub fn encode_binary_row(cells: &[Cell], sequence_id: u8) -> (r: Result<Packet, Error>)
    ensures
        builds(r, binary_row(views(cells@), sequence_id)),
        r matches Ok(p) ==> p@.payload.len() <= MAX_PAYLOAD,
{
    let ghost cs = views(cells@);
    let bitmap = build_bitmap(cells);
    let mut payload: Vec<u8> = Vec::new();
    payload.push(0);
    push_bytes(&mut payload, bitmap.as_slice());
    let ghost front = payload@;
    let mut i: usize = 0;
    proof {
        assert(cs.take(0) =~= Seq::empty());
        assert(front =~= seq![0u8] + null_bitmap(cs, cells@.len() as int));
        assert(front + binary_cells(cs.take(0)) =~= front);
    }
    while i < cells.len()
        invariant
            i <= cells@.len(),
            cs == views(cells@),
            payload@ == front + binary_cells(cs.take(i as int)),
        decreases cells@.len() - i,
    {
        match &cells[i] {
            Cell::Null => {},
            Cell::Int(n) => push_le(&mut payload, to_unsigned64(*n), 8),
            Cell::Text(s) => push_lenenc_bytes(&mut payload, s.as_str().as_bytes()),
        }
        proof {
            assert(cs.take(i + 1).drop_last() =~= cs.take(i as int));
            assert(cs.take(i + 1).last() == cells@[i as int]@);
            assert(payload@ =~= front + binary_cells(cs.take(i + 1)));
        }
        i = i + 1;
    }
    proof {
        assert(cs.take(cells@.len() as int) =~= cs);
    }
    seal("binary row", sequence_id, payload)
}

/// A single column's metadata.
#[derive(Debug, Clone)]
pub struct ColumnDefinition {
    pub name: String,
    pub column_type: ColumnType,
}

/// The content of a [`ColumnDefinition`].
pub ghost struct ColumnDefinitionV {
    pub name: Seq<char>,
    pub column_type: ColumnType,
}

impl View for ColumnDefinition {
    type V = ColumnDefinitionV;

    open spec fn view(&self) -> ColumnDefinitionV {
        ColumnDefinitionV { name: self.name@, column_type: self.column_type }
    }
}

impl ColumnDefinitionV {
    /// The payload of a column definition: catalog, schema, table, original
    /// table, name and original name; then the length of what follows, the
    /// collation, the display width, the type, flags, decimals and a filler.
    pub open spec fn payload(self) -> Seq<u8> {
        enc_str("def"@) + enc_str(""@) + enc_str(""@) + enc_str(""@) + enc_str(self.name) + enc_str(
            self.name,
        ) + seq![0x0cu8] + le(45, 2) + le(255, 4) + seq![type_code(self.column_type)] + le(0, 2)
            + seq![0u8, 0u8, 0u8]
    }

    /// The definition as a packet.
    #[verifier::opaque]
    pub open spec fn packet(self, seq: u8) -> Result<PacketV, ErrorV> {
        sealed("column definition"@, seq, self.payload())
    }
}

impl ColumnDefinition {
    pub fn new(name: &str, column_type: ColumnType) -> (r: Self)
        ensures
            r@ == (ColumnDefinitionV { name: name@, column_type }),
    {
        ColumnDefinition { name: name.to_string(), column_type }
    }

    /// Encode this column definition as its own packet, for a result set or
    /// for the parameters of a prepared statement.
    pub fn to_packet(&self, sequence_id: u8) -> (r: Result<Packet, Error>)
        ensures
            builds(r, self@.packet(sequence_id)),
            r matches Ok(p) ==> p@.payload.len() <= MAX_PAYLOAD,
    {
        let mut payload: Vec<u8> = Vec::new();
        push_lenenc_bytes(&mut payload, "def".as_bytes());
        push_lenenc_bytes(&mut payload, "".as_bytes());
        push_lenenc_bytes(&mut payload, "".as_bytes());
        push_lenenc_bytes(&mut payload, "".as_bytes());
        push_lenenc_bytes(&mut payload, self.name.as_str().as_bytes());
        push_lenenc_bytes(&mut payload, self.name.as_str().as_bytes());
        payload.push(0x0c);
        push_le(&mut payload, 45, 2);
        push_le(&mut payload, 255, 4);
        payload.push(self.column_type.code());
        push_le(&mut payload, 0, 2);
        payload.push(0);
        payload.push(0);
        payload.push(0);
        proof {
            reveal(ColumnDefinitionV::packet);
            assert(payload@ =~= self@.payload());
        }
        seal("column definition", sequence_id, payload)
    }
}

// ---------- result sets ----------

/// A full result set: columns and typed rows.
#[derive(Debug, Clone, Default)]
pub struct ResultSet {
    pub columns: Vec<ColumnDefinition>,
    pub rows: Vec<Vec<Cell>>,
}

/// The content of a [`ResultSet`].
pub ghost struct ResultSetV {
    pub columns: Seq<ColumnDefinitionV>,
    pub rows: Seq<Seq<CellV>>,
}

/// The cells of rows.
pub open spec fn cell_rows(rows: Seq<Vec<Cell>>) -> Seq<Seq<CellV>> {
    Seq::new(rows.len(), |i: int| views(rows[i]@))
}

impl View for ResultSet {
    type V = ResultSetV;

    open spec fn view(&self) -> ResultSetV {
        ResultSetV { columns: views(self.columns@), rows: cell_rows(self.rows@) }
    }
}

/// A sequence id `n` packets after `start`.
#[verifier::opaque]
pub open spec fn seq_after(start: u8, n: int) -> u8 {
    ((start + n) % 256) as u8
}

/// Sequence ids count on.
pub proof fn lemma_seq_after(start: u8, n: int)
    ensures
        seq_after(seq_after(start, n), 1) == seq_after(start, n + 1),
        seq_after(start, 0) == start,
{
    reveal(seq_after);
}

/// A classic EOF packet.
#[verifier::opaque]
pub open spec fn eof(status_flags: nat, seq: u8) -> PacketV {
    PacketV { sequence_id: seq, payload: seq![0xfeu8] + le(0, 2) + le(status_flags, 2) }
}

/// What ends the rows: an OK packet with another header (and under nine bytes,
/// so that no client takes it for a row), or a classic EOF packet.
#[verifier::opaque]
pub open spec fn terminator(deprecate_eof: bool, status_flags: nat, seq: u8) -> PacketV {
    if deprecate_eof {
        PacketV {
            sequence_id: seq,
            payload: seq![0xfeu8] + enc_int(0) + enc_int(0) + le(status_flags, 2) + le(0, 2),
        }
    } else {
        eof(status_flags, seq)
    }
}

/// A row, in the text or the binary protocol.
#[verifier::opaque]
pub open spec fn row_packet(cells: Seq<CellV>, binary: bool, seq: u8) -> Result<PacketV, ErrorV> {
    if binary {
        binary_row(cells, seq)
    } else {
        text_row(cells, seq)
    }
}

/// `front` and one more packet, if both are there.
pub open spec fn and_then_packet(
    front: Result<Seq<PacketV>, ErrorV>,
    last: Result<PacketV, ErrorV>,
) -> Result<Seq<PacketV>, ErrorV> {
    match (front, last) {
        (Err(e), _) => Err(e),
        (Ok(_), Err(e)) => Err(e),
        (Ok(f), Ok(p)) => Ok(f.push(p)),
    }
}

impl ResultSetV {
    /// The column count and the first `n` column definitions.
    pub open spec fn heading(self, start: u8, n: int) -> Result<Seq<PacketV>, ErrorV>
        decreases n,
    {
        if n <= 0 || n > self.columns.len() {
            Ok(seq![PacketV { sequence_id: start, payload: enc_int(self.columns.len()) }])
        } else {
            and_then_packet(
                self.heading(start, n - 1),
                self.columns[n - 1].packet(seq_after(start, n)),
            )
        }
    }

    /// Everything before the rows.
    pub open spec fn preamble(self, deprecate_eof: bool, status_flags: nat, start: u8) -> Result<
        Seq<PacketV>,
        ErrorV,
    > {
        let n = self.columns.len() as int;
        if deprecate_eof {
            self.heading(start, n)
        } else {
            and_then_packet(
                self.heading(start, n),
                Ok(eof(status_flags, seq_after(start, n + 1))),
            )
        }
    }

    /// Everything up to the first `k` rows.
    pub open spec fn body(
        self,
        binary: bool,
        deprecate_eof: bool,
        status_flags: nat,
        start: u8,
        k: int,
    ) -> Result<Seq<PacketV>, ErrorV>
        decreases k,
    {
        if k <= 0 || k > self.rows.len() {
            self.preamble(deprecate_eof, status_flags, start)
        } else {
            let before = self.body(binary, deprecate_eof, status_flags, start, k - 1);
            and_then_packet(
                before,
                row_packet(
                    self.rows[k - 1],
                    binary,
                    seq_after(start, self.columns.len() + 1 + (if deprecate_eof {
                        0int
                    } else {
                        1int
                    }) + (k - 1)),
                ),
            )
        }
    }

    /// How many packets there are in all.
    pub open spec fn packet_count(self, deprecate_eof: bool) -> int {
        self.columns.len() + self.rows.len() + (if deprecate_eof {
            2int
        } else {
            3int
        })
    }

    /// The packets of a result set.
    pub open spec fn packets(
        self,
        binary: bool,
        deprecate_eof: bool,
        status_flags: nat,
        start: u8,
    ) -> Result<Seq<PacketV>, ErrorV> {
        and_then_packet(
            self.body(binary, deprecate_eof, status_flags, start, self.rows.len() as int),
            Ok(
                terminator(
                    deprecate_eof,
                    status_flags,
                    seq_after(start, self.packet_count(deprecate_eof) - 1),
                ),
            ),
        )
    }
}

/// Packets on the wire, one after the other.
pub open spec fn wires(ps: Seq<PacketV>) -> Seq<u8>
    decreases ps.len(),
{
    if ps.len() == 0 {
        Seq::empty()
    } else {
        wires(ps.drop_last()) + ps.last().wire()
    }
}

pub proof fn lemma_wires_push(ps: Seq<PacketV>, p: PacketV)
    ensures
        wires(ps.push(p)) == wires(ps) + p.wire(),
{
    assert(ps.push(p).drop_last() =~= ps);
}

proof fn lemma_heading_stops(r: ResultSetV, start: u8, n: int, m: int)
    requires
        0 <= n <= m <= r.columns.len(),
    ensures
        r.heading(start, n) is Err ==> r.heading(start, m) == r.heading(start, n),
    decreases m - n,
{
    if n < m {
        lemma_heading_stops(r, start, n + 1, m);
    }
}

proof fn lemma_body_stops(
    r: ResultSetV,
    binary: bool,
    deprecate_eof: bool,
    status_flags: nat,
    start: u8,
    n: int,
    m: int,
)
    requires
        0 <= n <= m <= r.rows.len(),
    ensures
        r.body(binary, deprecate_eof, status_flags, start, n) is Err ==> r.body(
            binary,
            deprecate_eof,
            status_flags,
            start,
            m,
        ) == r.body(binary, deprecate_eof, status_flags, start, n),
    decreases m - n,
{
    if n < m {
        lemma_body_stops(r, binary, deprecate_eof, status_flags, start, n + 1, m);
    }
}

pub fn eof_packet(status_flags: u16, sequence_id: u8) -> (r: Packet)
    ensures
        r@ == eof(status_flags as nat, sequence_id),
        r@.payload.len() <= MAX_PAYLOAD,
{
    let mut payload: Vec<u8> = Vec::new();
    payload.push(0xfe);
    push_le(&mut payload, 0, 2);
    push_le(&mut payload, status_flags as u64, 2);
    proof {
        reveal(eof);
        lemma_le_len(0, 2);
        lemma_le_len(status_flags as nat, 2);
        assert(payload@ =~= eof(status_flags as nat, sequence_id).payload);
    }
    Packet::new(sequence_id, payload)
}

fn terminator_packet(deprecate_eof: bool, status_flags: u16, sequence_id: u8) -> (r: Packet)
    ensures
        r@ == terminator(deprecate_eof, status_flags as nat, sequence_id),
        r@.payload.len() <= MAX_PAYLOAD,
{
    proof {
        reveal(terminator);
    }
    if !deprecate_eof {
        return eof_packet(status_flags, sequence_id);
    }
    let mut payload: Vec<u8> = Vec::new();
    payload.push(0xfe);
    push_lenenc_int(&mut payload, 0);
    push_lenenc_int(&mut payload, 0);
    push_le(&mut payload, status_flags as u64, 2);
    push_le(&mut payload, 0, 2);
    proof {
        lemma_le_len(0, 2);
        lemma_le_len(status_flags as nat, 2);
        assert(payload@ =~= terminator(true, status_flags as nat, sequence_id).payload);
    }
    Packet::new(sequence_id, payload)
}

fn encode_row(cells: &[Cell], binary: bool, sequence_id: u8) -> (r: Result<Packet, Error>)
    ensures
        builds(r, row_packet(views(cells@), binary, sequence_id)),
        r matches Ok(p) ==> p@.payload.len() <= MAX_PAYLOAD,
{
    proof {
        reveal(row_packet);
    }
    if binary {
        encode_binary_row(cells, sequence_id)
    } else {
        encode_text_row(cells, sequence_id)
    }
}

/// The next sequence id.
pub fn next_seq(seq: u8) -> (r: u8)
    ensures
        r == seq_after(seq, 1),
{
    proof {
        reveal(seq_after);
    }
    seq.wrapping_add(1)
}

proof fn lemma_count_fits(n: nat)
    ensures
        enc_int(n).len() <= 9,
{
    lemma_le_len(n, 2);
    lemma_le_len(n, 3);
    lemma_le_len(n, 8);
}

impl ResultSet {
    /// Encode as packets. `deprecate_eof` selects the modern or the classic
    /// markers; `status_flags` is carried in the terminator. Returns the
    /// packets and the next sequence id.
    fn to_packets(&self, binary: bool, deprecate_eof: bool, status_flags: u16, start: u8) -> (r: Result<
        (Vec<Packet>, u8),
        Error,
    >)
        ensures
            match self@.packets(binary, deprecate_eof, status_flags as nat, start) {
                Ok(ps) => r matches Ok((v, next)) && views(v@) == ps && next == seq_after(
                    start,
                    self@.packet_count(deprecate_eof),
                ) && forall|i: int|
                    0 <= i < v@.len() ==> (#[trigger] v@[i])@.payload.len() <= MAX_PAYLOAD,
                Err(e) => r matches Err(x) && x@ == e,
            },
    {
        let ghost rs = self@;
        let ghost flags = status_flags as nat;
        let mut packets: Vec<Packet> = Vec::new();
        let mut seq: u8 = start;
        let ghost lead = rs.columns.len() + 1 + (if deprecate_eof {
            0int
        } else {
            1int
        });
        proof {
            lemma_seq_after(start, 0);
            lemma_seq_after(start, rs.columns.len() + 1int);
            lemma_seq_after(start, lead + rs.rows.len());
        }
        packets.push(Packet::new(seq, write_lenenc_int(self.columns.len() as u64)));
        seq = next_seq(seq);
        proof {
            lemma_count_fits(rs.columns.len());
            assert(views(packets@) =~= seq![
                PacketV { sequence_id: start, payload: enc_int(rs.columns.len()) },
            ]);
        }
        let mut i: usize = 0;
        while i < self.columns.len()
            invariant
                i <= self.columns@.len(),
                rs == self@,
                flags == status_flags as nat,
                seq == seq_after(start, i + 1),
                rs.heading(start, i as int) == Ok::<Seq<PacketV>, ErrorV>(views(packets@)),
                forall|k: int|
                    0 <= k < packets@.len() ==> (#[trigger] packets@[k])@.payload.len()
                        <= MAX_PAYLOAD,
            decreases self.columns@.len() - i,
        {
            proof {
                assert(rs.columns[i as int] == self.columns@[i as int]@);
                lemma_heading_stops(rs, start, i + 1, rs.columns.len() as int);
                lemma_body_stops(
                    rs,
                    binary,
                    deprecate_eof,
                    flags,
                    start,
                    0,
                    rs.rows.len() as int,
                );
            }
            packets.push(self.columns[i].to_packet(seq)?);
            proof {
                lemma_seq_after(start, i + 1);
            }
            seq = next_seq(seq);
            i = i + 1;
        }
        if !deprecate_eof {
            packets.push(eof_packet(status_flags, seq));
            seq = next_seq(seq);
        }
        let mut j: usize = 0;
        while j < self.rows.len()
            invariant
                j <= self.rows@.len(),
                rs == self@,
                flags == status_flags as nat,
                lead == rs.columns.len() + 1 + (if deprecate_eof {
                    0int
                } else {
                    1int
                }),
                seq == seq_after(start, lead + j),
                rs.body(binary, deprecate_eof, flags, start, j as int) == Ok::<
                    Seq<PacketV>,
                    ErrorV,
                >(views(packets@)),
                forall|k: int|
                    0 <= k < packets@.len() ==> (#[trigger] packets@[k])@.payload.len()
                        <= MAX_PAYLOAD,
            decreases self.rows@.len() - j,
        {
            proof {
                assert(rs.rows[j as int] == views(self.rows@[j as int]@));
                lemma_body_stops(
                    rs,
                    binary,
                    deprecate_eof,
                    flags,
                    start,
                    j + 1,
                    rs.rows.len() as int,
                );
            }
            packets.push(encode_row(self.rows[j].as_slice(), binary, seq)?);
            proof {
                lemma_seq_after(start, lead + j);
            }
            seq = next_seq(seq);
            j = j + 1;
        }
        packets.push(terminator_packet(deprecate_eof, status_flags, seq));
        seq = next_seq(seq);
        Ok((packets, seq))
    }

    /// Encode as a text-protocol result set (`COM_QUERY` response).
    pub fn to_text_packets(&self, deprecate_eof: bool, status_flags: u16, start: u8) -> (r: Result<
        (Vec<Packet>, u8),
        Error,
    >)
        ensures
            match self@.packets(false, deprecate_eof, status_flags as nat, start) {
                Ok(ps) => r matches Ok((v, next)) && views(v@) == ps && next == seq_after(
                    start,
                    self@.packet_count(deprecate_eof),
                ),
                Err(e) => r matches Err(x) && x@ == e,
            },
    {
        self.to_packets(false, deprecate_eof, status_flags, start)
    }

    /// Encode as a binary-protocol result set (prepared-statement response).
    pub fn to_binary_packets(&self, deprecate_eof: bool, status_flags: u16, start: u8) -> (r: Result<
        (Vec<Packet>, u8),
        Error,
    >)
        ensures
            match self@.packets(true, deprecate_eof, status_flags as nat, start) {
                Ok(ps) => r matches Ok((v, next)) && views(v@) == ps && next == seq_after(
                    start,
                    self@.packet_count(deprecate_eof),
                ),
                Err(e) => r matches Err(x) && x@ == e,
            },
    {
        self.to_packets(true, deprecate_eof, status_flags, start)
    }

    /// Append the whole result set to `out` as it goes over the wire, without
    /// building a list of packets first. Where it fails, what was encoded up
    /// to then stays in `out`.
    fn encode_into(
        &self,
        out: &mut Vec<u8>,
        binary: bool,
        deprecate_eof: bool,
        status_flags: u16,
        start: u8,
    ) -> (r: Result<u8, Error>)
        ensures
            match self@.packets(binary, deprecate_eof, status_flags as nat, start) {
                Ok(ps) => r matches Ok(next) && final(out)@ == old(out)@ + wires(ps) && next
                    == seq_after(start, self@.packet_count(deprecate_eof)),
                Err(e) => r matches Err(x) && x@ == e && old(out)@.is_prefix_of(final(out)@),
            },
    {
        let ghost rs = self@;
        let ghost flags = status_flags as nat;
        let ghost before = out@;
        let ghost mut done: Seq<PacketV> = Seq::empty();
        let mut seq: u8 = start;
        let ghost lead = rs.columns.len() + 1 + (if deprecate_eof {
            0int
        } else {
            1int
        });
        proof {
            lemma_seq_after(start, 0);
            lemma_seq_after(start, rs.columns.len() + 1int);
            lemma_seq_after(start, lead + rs.rows.len());
        }
        let count = Packet::new(seq, write_lenenc_int(self.columns.len() as u64));
        proof {
            lemma_count_fits(rs.columns.len());
            done = seq![PacketV { sequence_id: start, payload: enc_int(rs.columns.len()) }];
            lemma_wires_push(Seq::empty(), done[0]);
            assert(Seq::<PacketV>::empty().push(done[0]) =~= done);
            assert(Seq::<u8>::empty() + done[0].wire() =~= done[0].wire());
        }
        count.encode_into(out);
        seq = next_seq(seq);
        let mut i: usize = 0;
        while i < self.columns.len()
            invariant
                i <= self.columns@.len(),
                rs == self@,
                flags == status_flags as nat,
                before == old(out)@,
                seq == seq_after(start, i + 1),
                rs.heading(start, i as int) == Ok::<Seq<PacketV>, ErrorV>(done),
                out@ == before + wires(done),
            decreases self.columns@.len() - i,
        {
            proof {
                assert(rs.columns[i as int] == self.columns@[i as int]@);
                lemma_heading_stops(rs, start, i + 1, rs.columns.len() as int);
                lemma_body_stops(
                    rs,
                    binary,
                    deprecate_eof,
                    flags,
                    start,
                    0,
                    rs.rows.len() as int,
                );
            }
            let packet = self.columns[i].to_packet(seq)?;
            packet.encode_into(out);
            proof {
                lemma_seq_after(start, i + 1);
                lemma_wires_push(done, packet@);
                done = done.push(packet@);
                assert(out@ =~= before + wires(done));
            }
            seq = next_seq(seq);
            i = i + 1;
        }
        if !deprecate_eof {
            let packet = eof_packet(status_flags, seq);
            packet.encode_into(out);
            proof {
                lemma_wires_push(done, packet@);
                done = done.push(packet@);
                assert(out@ =~= before + wires(done));
            }
            seq = next_seq(seq);
        }
        let mut j: usize = 0;
        while j < self.rows.len()
            invariant
                j <= self.rows@.len(),
                rs == self@,
                flags == status_flags as nat,
                before == old(out)@,
                lead == rs.columns.len() + 1 + (if deprecate_eof {
                    0int
                } else {
                    1int
                }),
                seq == seq_after(start, lead + j),
                rs.body(binary, deprecate_eof, flags, start, j as int) == Ok::<
                    Seq<PacketV>,
                    ErrorV,
                >(done),
                out@ == before + wires(done),
            decreases self.rows@.len() - j,
        {
            proof {
                assert(rs.rows[j as int] == views(self.rows@[j as int]@));
                lemma_body_stops(
                    rs,
                    binary,
                    deprecate_eof,
                    flags,
                    start,
                    j + 1,
                    rs.rows.len() as int,
                );
            }
            let packet = encode_row(self.rows[j].as_slice(), binary, seq)?;
            packet.encode_into(out);
            proof {
                lemma_seq_after(start, lead + j);
                lemma_wires_push(done, packet@);
                done = done.push(packet@);
                assert(out@ =~= before + wires(done));
            }
            seq = next_seq(seq);
            j = j + 1;
        }
        let packet = terminator_packet(deprecate_eof, status_flags, seq);
        packet.encode_into(out);
        proof {
            lemma_wires_push(done, packet@);
            done = done.push(packet@);
            assert(out@ =~= before + wires(done));
        }
        seq = next_seq(seq);
        Ok(seq)
    }

    /// Append a text-protocol result set to `out`: the same bytes as
    /// [`ResultSet::to_text_packets`], in one buffer. Returns the next
    /// sequence id.
    pub fn encode_text_into(
        &self,
        out: &mut Vec<u8>,
        deprecate_eof: bool,
        status_flags: u16,
        start: u8,
    ) -> (r: Result<u8, Error>)
        ensures
            match self@.packets(false, deprecate_eof, status_flags as nat, start) {
                Ok(ps) => r matches Ok(next) && final(out)@ == old(out)@ + wires(ps) && next
                    == seq_after(start, self@.packet_count(deprecate_eof)),
                Err(e) => r matches Err(x) && x@ == e && old(out)@.is_prefix_of(final(out)@),
            },
    {
        self.encode_into(out, false, deprecate_eof, status_flags, start)
    }

    /// Append a binary-protocol result set to `out`: the same bytes as
    /// [`ResultSet::to_binary_packets`], in one buffer.
    pub fn encode_binary_into(
        &self,
        out: &mut Vec<u8>,
        deprecate_eof: bool,
        status_flags: u16,
        start: u8,
    ) -> (r: Result<u8, Error>)
        ensures
            match self@.packets(true, deprecate_eof, status_flags as nat, start) {
                Ok(ps) => r matches Ok(next) && final(out)@ == old(out)@ + wires(ps) && next
                    == seq_after(start, self@.packet_count(deprecate_eof)),
                Err(e) => r matches Err(x) && x@ == e && old(out)@.is_prefix_of(final(out)@),
            },
    {
        self.encode_into(out, true, deprecate_eof, status_flags, start)
    }
}

} // verus!
