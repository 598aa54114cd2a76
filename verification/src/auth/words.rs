//! What the hash functions share: 32-bit word arithmetic, and a message
//! padded to whole blocks (FIPS 180-4).
use vstd::prelude::*;

use crate::bytes::{le, lemma_le_len, push_bytes, push_le, push_repeated};

verus! {

/// `x` rotated left by `n` bits.
pub open spec fn rotl(x: u32, n: u32) -> u32 {
    (x << n) | (x >> ((32 - n) as u32))
}

/// `x` rotated right by `n` bits.
pub open spec fn rotr(x: u32, n: u32) -> u32 {
    (x >> n) | (x << ((32 - n) as u32))
}

/// The sum of two words, modulo 2^32.
pub open spec fn sum(a: u32, b: u32) -> u32 {
    if a + b > u32::MAX {
        (a + b - 0x1_0000_0000) as u32
    } else {
        (a + b) as u32
    }
}

pub fn rotate_left(x: u32, n: u32) -> (r: u32)
    requires
        0 < n < 32,
    ensures
        r == rotl(x, n),
{
    (x << n) | (x >> (32 - n))
}

pub fn rotate_right(x: u32, n: u32) -> (r: u32)
    requires
        0 < n < 32,
    ensures
        r == rotr(x, n),
{
    (x >> n) | (x << (32 - n))
}

pub fn add32(a: u32, b: u32) -> (r: u32)
    ensures
        r == sum(a, b),
{
    a.wrapping_add(b)
}

/// The big-endian word at `i` of `b`.
pub open spec fn word(b: Seq<u8>, i: int) -> u32 {
    ((b[i] as u32) << 24) | ((b[i + 1] as u32) << 16) | ((b[i + 2] as u32) << 8) | (b[i + 3] as u32)
}

pub fn read_word(b: &Vec<u8>, i: usize) -> (r: u32)
    requires
        i + 3 < b@.len(),
    ensures
        r == word(b@, i as int),
{
    let _len: usize = b.len();
    ((b[i] as u32) << 24) | ((b[i + 1] as u32) << 16) | ((b[i + 2] as u32) << 8) | (b[i + 3] as u32)
}

/// The bytes of a word, most significant first.
pub open spec fn word_bytes(w: u32) -> Seq<u8> {
    seq![(w >> 24) as u8, ((w >> 16) & 0xff) as u8, ((w >> 8) & 0xff) as u8, (w & 0xff) as u8]
}

/// The bytes of words, one word after the other.
pub open spec fn words_bytes(ws: Seq<u32>) -> Seq<u8>
    decreases ws.len(),
{
    if ws.len() == 0 {
        Seq::empty()
    } else {
        words_bytes(ws.drop_last()) + word_bytes(ws.last())
    }
}

/// Every word is four bytes.
pub proof fn lemma_words_bytes_len(ws: Seq<u32>)
    ensures
        words_bytes(ws).len() == 4 * ws.len(),
    decreases ws.len(),
{
    if ws.len() > 0 {
        lemma_words_bytes_len(ws.drop_last());
    }
}

/// The bytes of words.
pub fn bytes_of_words(ws: &Vec<u32>) -> (r: Vec<u8>)
    ensures
        r@ == words_bytes(ws@),
        r@.len() == 4 * ws@.len(),
{
    let mut out: Vec<u8> = Vec::new();
    let mut i: usize = 0;
    proof {
        assert(ws@.take(0) =~= Seq::empty());
    }
    while i < ws.len()
        invariant
            i <= ws@.len(),
            out@ == words_bytes(ws@.take(i as int)),
            out@.len() == 4 * i,
        decreases ws@.len() - i,
    {
        let w: u32 = ws[i];
        out.push((w >> 24) as u8);
        out.push(((w >> 16) & 0xff) as u8);
        out.push(((w >> 8) & 0xff) as u8);
        out.push((w & 0xff) as u8);
        proof {
            assert(ws@.take(i + 1).drop_last() =~= ws@.take(i as int));
            assert(ws@.take(i + 1).last() == w);
            assert(out@ =~= words_bytes(ws@.take(i as int)) + word_bytes(w));
        }
        i = i + 1;
    }
    proof {
        assert(ws@.take(ws@.len() as int) =~= ws@);
    }
    out
}

/// How many zero bytes follow the end mark of a message of `len` bytes, so
/// that 8 bytes are left of the last block.
pub open spec fn gap(len: nat) -> nat {
    ((55 - len % 64) % 64) as nat
}

/// A message padded to whole 64-byte blocks: an end mark, zeros, and the
/// message's length in bits (modulo 2^64), big-endian.
pub open spec fn padded(m: Seq<u8>) -> Seq<u8> {
    m + seq![0x80u8] + Seq::new(gap(m.len()), |i: int| 0u8) + le(
        (8 * m.len()) as nat % 0x1_0000_0000_0000_0000,
        8,
    ).reverse()
}

/// A message padded to whole blocks.
pub fn pad_message(input: &[u8]) -> (r: Vec<u8>)
    ensures
        r@ == padded(input@),
        r@.len() % 64 == 0,
{
    let len: usize = input.len();
    let mut out: Vec<u8> = Vec::new();
    push_bytes(&mut out, input);
    out.push(0x80);
    let used: usize = len % 64;
    let zeros: usize = if used <= 55 {
        55 - used
    } else {
        119 - used
    };
    push_repeated(&mut out, 0, zeros);
    let bits: u64 = (len as u64).wrapping_mul(8);
    let mut tail: Vec<u8> = Vec::new();
    push_le(&mut tail, bits, 8);
    proof {
        lemma_le_len(bits as nat, 8);
        assert(zeros == gap(len as nat));
        assert(bits as nat == (8 * len) as nat % 0x1_0000_0000_0000_0000);
    }
    let ghost before = out@;
    let ghost end = le(bits as nat, 8);
    let mut i: usize = 8;
    while i > 0
        invariant
            i <= 8,
            tail@ == end,
            end.len() == 8,
            out@ == before + end.reverse().take(8 - i),
        decreases i,
    {
        out.push(tail[i - 1]);
        proof {
            assert(end.reverse()[8 - i] == end[i - 1]);
            assert(before + end.reverse().take(8 - i + 1) =~= (before + end.reverse().take(
                8 - i,
            )).push(end[i - 1]));
        }
        i = i - 1;
    }
    proof {
        assert(end.reverse().take(8) =~= end.reverse());
        assert(out@ =~= padded(input@));
    }
    out
}

} // verus!
