//! How messages are cut into blocks and words.
use vstd::prelude::*;

use crate::auth::words::{gap, padded, sum, word, word_bytes};
use crate::bytes::{le, lemma_le_len};
use crate::protocol::reading::{lemma_fixed_reads, stands_at};

verus! {

/// Eight bytes at `i`, the greatest first.
pub open spec fn big_at(b: Seq<u8>, i: int) -> int {
    0x100_0000_0000_0000 * b[i] + 0x1_0000_0000_0000 * b[i + 1] + 0x100_0000_0000 * b[i + 2]
        + 0x1_0000_0000 * b[i + 3] + 0x100_0000 * b[i + 4] + 0x1_0000 * b[i + 5] + 0x100 * b[i + 6]
        + b[i + 7]
}

/// A padded message is the message, a byte with its first bit set, as few zeros
/// as make it whole blocks of 64 bytes, and the number of the message's bits in
/// eight bytes, the greatest first.
pub proof fn law_padding_fills_whole_blocks(m: Seq<u8>)
    ensures
        ({
            let b = padded(m);
            let n = b.len() as int;
            &&& n % 64 == 0
            &&& m.len() + 9 <= n < m.len() + 9 + 64
            &&& b.take(m.len() as int) == m
            &&& b[m.len() as int] == 0x80
            &&& forall|i: int| m.len() < i < n - 8 ==> #[trigger] b[i] == 0
            &&& big_at(b, n - 8) == (8 * m.len()) % 0x1_0000_0000_0000_0000
        }),
{
    let b = padded(m);
    let n = b.len() as int;
    let bits = (8 * m.len()) as nat % 0x1_0000_0000_0000_0000;
    let low = le(bits, 8);
    let end = low.reverse();
    lemma_le_len(bits, 8);
    assert(b.take(m.len() as int) =~= m);
    assert(stands_at(low, 0, low)) by {
        assert(low.subrange(0, 8) =~= low);
    }
    lemma_fixed_reads(low, 0, bits, 8);
    assert forall|i: int| 0 <= i < 8 implies #[trigger] b[n - 8 + i] == low[7 - i] by {
        assert(end[i] == low[7 - i]);
    }
    assert(b[n - 8 + 0] == low[7]);
    assert(b[n - 8 + 1] == low[6]);
    assert(b[n - 8 + 2] == low[5]);
    assert(b[n - 8 + 3] == low[4]);
    assert(b[n - 8 + 4] == low[3]);
    assert(b[n - 8 + 5] == low[2]);
    assert(b[n - 8 + 6] == low[1]);
    assert(b[n - 8 + 7] == low[0]);
    assert((m.len() as int + 9 + gap(m.len())) % 64 == 0) by (nonlinear_arith)
        requires
            gap(m.len()) == (55 - m.len() % 64) % 64,
    ;
}

/// A word is four bytes, the greatest first, and is cut into those bytes again;
/// sums of words drop what does not fit.
pub proof fn law_words_are_four_bytes(b: Seq<u8>, i: int, w: u32, x: u32)
    ensures
        word(b, i) == 0x100_0000 * b[i] + 0x1_0000 * b[i + 1] + 0x100 * b[i + 2] + b[i + 3],
        word_bytes(w).len() == 4,
        word(word_bytes(w), 0) == w,
        sum(w, x) == (w + x) % 0x1_0000_0000,
{
    lemma_word_sum(b[i], b[i + 1], b[i + 2], b[i + 3]);
    assert(((w >> 24) as u8) as u32 == w / 0x100_0000) by (bit_vector);
    assert((((w >> 16) & 0xff) as u8) as u32 == (w / 0x1_0000) % 0x100) by (bit_vector);
    assert((((w >> 8) & 0xff) as u8) as u32 == (w / 0x100) % 0x100) by (bit_vector);
    assert(((w & 0xff) as u8) as u32 == w % 0x100) by (bit_vector);
    let c = word_bytes(w);
    lemma_word_sum(c[0], c[1], c[2], c[3]);
}

proof fn lemma_word_sum(a: u8, b: u8, c: u8, d: u8)
    ensures
        (((a as u32) << 24) | ((b as u32) << 16) | ((c as u32) << 8) | (d as u32)) == 0x100_0000 * a
            + 0x1_0000 * b + 0x100 * c + d,
{
    let w = ((a as u32) << 24) | ((b as u32) << 16) | ((c as u32) << 8) | (d as u32);
    assert(w >> 24 == a as u32 && (w >> 16) & 0xff == b as u32 && (w >> 8) & 0xff == c as u32 && w
        & 0xff == d as u32) by (bit_vector)
        requires
            w == ((a as u32) << 24) | ((b as u32) << 16) | ((c as u32) << 8) | (d as u32),
    ;
    assert(w >> 24 == w / 0x100_0000) by (bit_vector);
    assert((w >> 16) & 0xff == (w / 0x1_0000) % 0x100) by (bit_vector);
    assert((w >> 8) & 0xff == (w / 0x100) % 0x100) by (bit_vector);
    assert(w & 0xff == w % 0x100) by (bit_vector);
}

} // verus!
