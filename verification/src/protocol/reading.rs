//! How a client reads the bytes that it is sent.
use vstd::prelude::*;
use vstd::utf8::{
    decode_utf8, encode_utf8, encode_utf8_decode_utf8, encode_utf8_valid_utf8, valid_utf8,
};

use crate::bytes::{le, le_value, lemma_le_len, lemma_le_round_trip, lemma_pow256};
use crate::protocol::lenenc::{enc_int, enc_str};

verus! {

// ---------- numbers ----------

/// Two bytes at `i`, the lesser first.
pub open spec fn u16_at(b: Seq<u8>, i: int) -> int {
    b[i] + 0x100 * b[i + 1]
}

/// Three bytes at `i`, the least first.
pub open spec fn u24_at(b: Seq<u8>, i: int) -> int {
    b[i] + 0x100 * b[i + 1] + 0x1_0000 * b[i + 2]
}

/// Four bytes at `i`, the least first.
pub open spec fn u32_at(b: Seq<u8>, i: int) -> int {
    u16_at(b, i) + 0x1_0000 * u16_at(b, i + 2)
}

/// Eight bytes at `i`, the least first.
pub open spec fn u64_at(b: Seq<u8>, i: int) -> int {
    u32_at(b, i) + 0x1_0000_0000 * u32_at(b, i + 4)
}

/// Eight bytes at `i` in two's complement.
pub open spec fn i64_at(b: Seq<u8>, i: int) -> int {
    if b[i + 7] >= 0x80 {
        u64_at(b, i) - 0x1_0000_0000_0000_0000
    } else {
        u64_at(b, i)
    }
}

/// A length-encoded number at `i`, and the place behind it.
pub open spec fn count_at(b: Seq<u8>, i: int) -> Option<(int, int)> {
    if !(0 <= i < b.len()) {
        None
    } else if b[i] <= 250 {
        Some((b[i] as int, i + 1))
    } else if b[i] == 252 && i + 3 <= b.len() {
        Some((u16_at(b, i + 1), i + 3))
    } else if b[i] == 253 && i + 4 <= b.len() {
        Some((u24_at(b, i + 1), i + 4))
    } else if b[i] == 254 && i + 9 <= b.len() {
        Some((u64_at(b, i + 1), i + 9))
    } else {
        None
    }
}

/// The text in `b[i..j]`.
pub open spec fn text_between(b: Seq<u8>, i: int, j: int) -> Option<Seq<char>> {
    if 0 <= i <= j <= b.len() && valid_utf8(b.subrange(i, j)) {
        Some(decode_utf8(b.subrange(i, j)))
    } else {
        None
    }
}

/// A length-encoded text at `i`, and the place behind it.
pub open spec fn text_at(b: Seq<u8>, i: int) -> Option<(Seq<char>, int)> {
    match count_at(b, i) {
        None => None,
        Some((n, j)) => match text_between(b, j, j + n) {
            None => None,
            Some(s) => Some((s, j + n)),
        },
    }
}

// ---------- what was written is read ----------

/// Whether `part` stands in `b` at place `i`.
pub open spec fn stands_at(b: Seq<u8>, i: int, part: Seq<u8>) -> bool {
    0 <= i && i + part.len() <= b.len() && b.subrange(i, i + part.len()) == part
}

pub proof fn lemma_stands_bytes(b: Seq<u8>, i: int, part: Seq<u8>)
    requires
        stands_at(b, i, part),
    ensures
        forall|k: int| 0 <= k < part.len() ==> #[trigger] part[k] == b[i + k],
{
    assert forall|k: int| 0 <= k < part.len() implies #[trigger] part[k] == b[i + k] by {
        assert(b.subrange(i, i + part.len())[k] == b[i + k]);
    }
}

/// Parts that stand one after the other stand at their places.
pub proof fn lemma_parts_stand(b: Seq<u8>, i: int, x: Seq<u8>, y: Seq<u8>)
    requires
        stands_at(b, i, x + y),
    ensures
        stands_at(b, i, x),
        stands_at(b, (i + x.len()) as int, y),
{
    lemma_stands_bytes(b, i, x + y);
    assert(b.subrange(i, i + x.len()) =~= x) by {
        assert forall|k: int| 0 <= k < x.len() implies b[i + k] == x[k] by {
            assert((x + y)[k] == x[k]);
        }
    }
    let j = i + x.len();
    assert(b.subrange(j, j + y.len()) =~= y) by {
        assert forall|k: int| 0 <= k < y.len() implies b[j + k] == y[k] by {
            assert((x + y)[x.len() + k] == y[k]);
        }
    }
}

proof fn lemma_le_value_two(s: Seq<u8>)
    requires
        s.len() >= 2,
    ensures
        le_value(s) == s[0] + 0x100 * s[1] + 0x1_0000 * le_value(s.subrange(2, s.len() as int)),
{
    let a = s.drop_first();
    let c = a.drop_first();
    assert(le_value(s) == s[0] + 256 * le_value(a));
    assert(le_value(a) == a[0] + 256 * le_value(c));
    assert(c =~= s.subrange(2, s.len() as int));
}

/// Fixed-width numbers are read back.
#[verifier::rlimit(40)]
pub proof fn lemma_fixed_reads(b: Seq<u8>, i: int, n: nat, width: nat)
    requires
        stands_at(b, i, le(n, width)),
    ensures
        width == 2 && n < 0x1_0000 ==> u16_at(b, i) == n,
        width == 3 && n < 0x100_0000 ==> u24_at(b, i) == n,
        width == 4 && n < 0x1_0000_0000 ==> u32_at(b, i) == n,
        width == 8 && n < 0x1_0000_0000_0000_0000 ==> u64_at(b, i) == n,
        le(n, width).len() == width,
{
    let s = le(n, width);
    lemma_pow256();
    lemma_le_len(n, width);
    lemma_stands_bytes(b, i, s);
    let empty = Seq::<u8>::empty();
    assert(le_value(empty) == 0);
    if width == 2 && n < 0x1_0000 {
        lemma_le_round_trip(n, width);
        lemma_le_value_two(s);
        assert(s.subrange(2, 2) =~= empty);
        assert(s[0] == b[i + 0] && s[1] == b[i + 1]);
    } else if width == 3 && n < 0x100_0000 {
        lemma_le_round_trip(n, width);
        lemma_le_value_two(s);
        let t = s.subrange(2, 3);
        assert(t.drop_first() =~= empty);
        assert(s[0] == b[i + 0] && s[1] == b[i + 1] && s[2] == b[i + 2]);
    } else if width == 4 && n < 0x1_0000_0000 {
        lemma_le_round_trip(n, width);
        lemma_le_value_two(s);
        let t = s.subrange(2, 4);
        lemma_le_value_two(t);
        assert(t.subrange(2, 2) =~= empty);
        assert(s[0] == b[i + 0] && s[1] == b[i + 1] && s[2] == b[i + 2] && s[3] == b[i + 3]);
    } else if width == 8 && n < 0x1_0000_0000_0000_0000 {
        lemma_le_round_trip(n, width);
        lemma_le_value_two(s);
        let t = s.subrange(2, 8);
        lemma_le_value_two(t);
        let u = t.subrange(2, 6);
        lemma_le_value_two(u);
        let v = u.subrange(2, 4);
        lemma_le_value_two(v);
        assert(v.subrange(2, 2) =~= empty);
        assert(s[0] == b[i + 0] && s[1] == b[i + 1] && s[2] == b[i + 2] && s[3] == b[i + 3]);
        assert(s[4] == b[i + 4] && s[5] == b[i + 5] && s[6] == b[i + 6] && s[7] == b[i + 7]);
    }
}

/// Length-encoded numbers are read back.
pub proof fn lemma_count_reads(b: Seq<u8>, i: int, n: nat)
    requires
        stands_at(b, i, enc_int(n)),
        n < 0x1_0000_0000_0000_0000,
    ensures
        count_at(b, i) == Some((n as int, (i + enc_int(n).len()) as int)),
{
    lemma_stands_bytes(b, i, enc_int(n));
    assert(enc_int(n)[0] == b[i + 0]);
    lemma_le_len(n, 2);
    lemma_le_len(n, 3);
    lemma_le_len(n, 8);
    if n < 0xfb {
    } else if n <= 0xffff {
        lemma_parts_stand(b, i, seq![0xfcu8], le(n, 2));
        lemma_fixed_reads(b, i + 1, n, 2);
    } else if n <= 0xff_ffff {
        lemma_parts_stand(b, i, seq![0xfdu8], le(n, 3));
        lemma_fixed_reads(b, i + 1, n, 3);
    } else {
        lemma_parts_stand(b, i, seq![0xfeu8], le(n, 8));
        lemma_fixed_reads(b, i + 1, n, 8);
    }
}

/// Texts are read back.
pub proof fn lemma_text_between_reads(b: Seq<u8>, i: int, s: Seq<char>)
    requires
        stands_at(b, i, encode_utf8(s)),
    ensures
        text_between(b, i, (i + encode_utf8(s).len()) as int) == Some(s),
{
    encode_utf8_valid_utf8(s);
    encode_utf8_decode_utf8(s);
}

/// Length-encoded texts are read back.
pub proof fn lemma_text_reads(b: Seq<u8>, i: int, s: Seq<char>)
    requires
        stands_at(b, i, enc_str(s)),
        encode_utf8(s).len() < 0x1_0000_0000_0000_0000,
    ensures
        text_at(b, i) == Some((s, (i + enc_str(s).len()) as int)),
{
    let text = encode_utf8(s);
    lemma_parts_stand(b, i, enc_int(text.len()), text);
    lemma_count_reads(b, i, text.len());
    lemma_text_between_reads(b, (i + enc_int(text.len()).len()) as int, s);
}

} // verus!
