//! SHA-256 (FIPS 180-4).
use vstd::prelude::*;

use crate::auth::words::{
    add32, bytes_of_words, pad_message, padded, read_word, rotate_right, rotr, sum, word,
    words_bytes,
};

verus! {

/// The state between blocks and between rounds.
pub ghost struct State {
    pub a: u32,
    pub b: u32,
    pub c: u32,
    pub d: u32,
    pub e: u32,
    pub f: u32,
    pub g: u32,
    pub h: u32,
}

pub open spec fn initial() -> State {
    State {
        a: 0x6a09e667,
        b: 0xbb67ae85,
        c: 0x3c6ef372,
        d: 0xa54ff53a,
        e: 0x510e527f,
        f: 0x9b05688c,
        g: 0x1f83d9ab,
        h: 0x5be0cd19,
    }
}

/// The round constants.
pub open spec fn constants() -> Seq<u32> {
    seq![
        0x428a2f98u32, 0x71374491u32, 0xb5c0fbcfu32, 0xe9b5dba5u32,
        0x3956c25bu32, 0x59f111f1u32, 0x923f82a4u32, 0xab1c5ed5u32,
        0xd807aa98u32, 0x12835b01u32, 0x243185beu32, 0x550c7dc3u32,
        0x72be5d74u32, 0x80deb1feu32, 0x9bdc06a7u32, 0xc19bf174u32,
        0xe49b69c1u32, 0xefbe4786u32, 0x0fc19dc6u32, 0x240ca1ccu32,
        0x2de92c6fu32, 0x4a7484aau32, 0x5cb0a9dcu32, 0x76f988dau32,
        0x983e5152u32, 0xa831c66du32, 0xb00327c8u32, 0xbf597fc7u32,
        0xc6e00bf3u32, 0xd5a79147u32, 0x06ca6351u32, 0x14292967u32,
        0x27b70a85u32, 0x2e1b2138u32, 0x4d2c6dfcu32, 0x53380d13u32,
        0x650a7354u32, 0x766a0abbu32, 0x81c2c92eu32, 0x92722c85u32,
        0xa2bfe8a1u32, 0xa81a664bu32, 0xc24b8b70u32, 0xc76c51a3u32,
        0xd192e819u32, 0xd6990624u32, 0xf40e3585u32, 0x106aa070u32,
        0x19a4c116u32, 0x1e376c08u32, 0x2748774cu32, 0x34b0bcb5u32,
        0x391c0cb3u32, 0x4ed8aa4au32, 0x5b9cca4fu32, 0x682e6ff3u32,
        0x748f82eeu32, 0x78a5636fu32, 0x84c87814u32, 0x8cc70208u32,
        0x90befffau32, 0xa4506cebu32, 0xbef9a3f7u32, 0xc67178f2u32,
    ]
}

pub open spec fn small_sigma0(x: u32) -> u32 {
    rotr(x, 7) ^ rotr(x, 18) ^ (x >> 3)
}

pub open spec fn small_sigma1(x: u32) -> u32 {
    rotr(x, 17) ^ rotr(x, 19) ^ (x >> 10)
}

pub open spec fn big_sigma0(x: u32) -> u32 {
    rotr(x, 2) ^ rotr(x, 13) ^ rotr(x, 22)
}

pub open spec fn big_sigma1(x: u32) -> u32 {
    rotr(x, 6) ^ rotr(x, 11) ^ rotr(x, 25)
}

/// `y` where `x` has a bit, `z` where it has none.
pub open spec fn choice(x: u32, y: u32, z: u32) -> u32 {
    (x & y) ^ ((!x) & z)
}

/// The bits that at least two of the words have.
pub open spec fn majority(x: u32, y: u32, z: u32) -> u32 {
    (x & y) ^ (x & z) ^ (y & z)
}

/// Word `t` of the message schedule of the block at `at`.
pub open spec fn schedule(m: Seq<u8>, at: int, t: int) -> u32
    decreases t,
{
    if t < 16 {
        word(m, at + 4 * t)
    } else {
        sum(
            sum(
                sum(small_sigma1(schedule(m, at, t - 2)), schedule(m, at, t - 7)),
                small_sigma0(schedule(m, at, t - 15)),
            ),
            schedule(m, at, t - 16),
        )
    }
}

/// The state after the first `n` rounds of a block.
pub open spec fn rounds(m: Seq<u8>, at: int, start: State, n: int) -> State
    decreases n,
{
    if n <= 0 {
        start
    } else {
        let s = rounds(m, at, start, n - 1);
        let t1 = sum(
            sum(sum(sum(s.h, big_sigma1(s.e)), choice(s.e, s.f, s.g)), constants()[n - 1]),
            schedule(m, at, n - 1),
        );
        let t2 = sum(big_sigma0(s.a), majority(s.a, s.b, s.c));
        State {
            a: sum(t1, t2),
            b: s.a,
            c: s.b,
            d: s.c,
            e: sum(s.d, t1),
            f: s.e,
            g: s.f,
            h: s.g,
        }
    }
}

/// The state after the block at `at`.
pub open spec fn after_block(m: Seq<u8>, at: int, start: State) -> State {
    let s = rounds(m, at, start, 64);
    State {
        a: sum(start.a, s.a),
        b: sum(start.b, s.b),
        c: sum(start.c, s.c),
        d: sum(start.d, s.d),
        e: sum(start.e, s.e),
        f: sum(start.f, s.f),
        g: sum(start.g, s.g),
        h: sum(start.h, s.h),
    }
}

/// The state after the first `n` blocks.
pub open spec fn after_blocks(m: Seq<u8>, n: int) -> State
    decreases n,
{
    if n <= 0 {
        initial()
    } else {
        after_block(m, 64 * (n - 1), after_blocks(m, n - 1))
    }
}

/// The SHA-256 digest of a message.
pub open spec fn digest_of(m: Seq<u8>) -> Seq<u8> {
    let s = after_blocks(padded(m), padded(m).len() as int / 64);
    words_bytes(seq![s.a, s.b, s.c, s.d, s.e, s.f, s.g, s.h])
}

fn round_constants() -> (r: [u32; 64])
    ensures
        r@ == constants(),
{
    let k: [u32; 64] = [
        0x428a2f98, 0x71374491, 0xb5c0fbcf, 0xe9b5dba5,
        0x3956c25b, 0x59f111f1, 0x923f82a4, 0xab1c5ed5,
        0xd807aa98, 0x12835b01, 0x243185be, 0x550c7dc3,
        0x72be5d74, 0x80deb1fe, 0x9bdc06a7, 0xc19bf174,
        0xe49b69c1, 0xefbe4786, 0x0fc19dc6, 0x240ca1cc,
        0x2de92c6f, 0x4a7484aa, 0x5cb0a9dc, 0x76f988da,
        0x983e5152, 0xa831c66d, 0xb00327c8, 0xbf597fc7,
        0xc6e00bf3, 0xd5a79147, 0x06ca6351, 0x14292967,
        0x27b70a85, 0x2e1b2138, 0x4d2c6dfc, 0x53380d13,
        0x650a7354, 0x766a0abb, 0x81c2c92e, 0x92722c85,
        0xa2bfe8a1, 0xa81a664b, 0xc24b8b70, 0xc76c51a3,
        0xd192e819, 0xd6990624, 0xf40e3585, 0x106aa070,
        0x19a4c116, 0x1e376c08, 0x2748774c, 0x34b0bcb5,
        0x391c0cb3, 0x4ed8aa4a, 0x5b9cca4f, 0x682e6ff3,
        0x748f82ee, 0x78a5636f, 0x84c87814, 0x8cc70208,
        0x90befffa, 0xa4506ceb, 0xbef9a3f7, 0xc67178f2,
    ];
    proof {
        assert(k@ =~= constants());
    }
    k
}

fn expand(m: &Vec<u8>, at: usize) -> (r: Vec<u32>)
    requires
        at + 64 <= m@.len(),
    ensures
        r@.len() == 64,
        forall|t: int| 0 <= t < 64 ==> #[trigger] r@[t] == schedule(m@, at as int, t),
{
    let _len: usize = m.len();
    let mut w: Vec<u32> = Vec::new();
    let mut t: usize = 0;
    while t < 64
        invariant
            t <= 64,
            at + 64 <= m@.len() <= usize::MAX,
            w@.len() == t,
            forall|k: int| 0 <= k < t ==> #[trigger] w@[k] == schedule(m@, at as int, k),
        decreases 64 - t,
    {
        if t < 16 {
            w.push(read_word(m, at + 4 * t));
        } else {
            let x: u32 = w[t - 2];
            let y: u32 = w[t - 15];
            let s1: u32 = rotate_right(x, 17) ^ rotate_right(x, 19) ^ (x >> 10);
            let s0: u32 = rotate_right(y, 7) ^ rotate_right(y, 18) ^ (y >> 3);
            w.push(add32(add32(add32(s1, w[t - 7]), s0), w[t - 16]));
        }
        t = t + 1;
    }
    w
}

/// Eight words as a state.
pub open spec fn state_of(h: Seq<u32>) -> State {
    State { a: h[0], b: h[1], c: h[2], d: h[3], e: h[4], f: h[5], g: h[6], h: h[7] }
}

fn process_chunk(m: &Vec<u8>, at: usize, h: &Vec<u32>, k: &[u32; 64]) -> (r: Vec<u32>)
    requires
        at + 64 <= m@.len(),
        h@.len() == 8,
        k@ == constants(),
    ensures
        r@.len() == 8,
        state_of(r@) == after_block(m@, at as int, state_of(h@)),
{
    let w = expand(m, at);
    let ghost start = state_of(h@);
    let mut s = (h[0], h[1], h[2], h[3], h[4], h[5], h[6], h[7]);
    let mut t: usize = 0;
    while t < 64
        invariant
            t <= 64,
            w@.len() == 64,
            k@ == constants(),
            forall|i: int| 0 <= i < 64 ==> #[trigger] w@[i] == schedule(m@, at as int, i),
            (State { a: s.0, b: s.1, c: s.2, d: s.3, e: s.4, f: s.5, g: s.6, h: s.7 }) == rounds(
                m@,
                at as int,
                start,
                t as int,
            ),
        decreases 64 - t,
    {
        let (a, b, c, d, e, f, g, hh) = s;
        let s1: u32 = rotate_right(e, 6) ^ rotate_right(e, 11) ^ rotate_right(e, 25);
        let ch: u32 = (e & f) ^ ((!e) & g);
        let t1: u32 = add32(add32(add32(add32(hh, s1), ch), k[t]), w[t]);
        let s0: u32 = rotate_right(a, 2) ^ rotate_right(a, 13) ^ rotate_right(a, 22);
        let maj: u32 = (a & b) ^ (a & c) ^ (b & c);
        let t2: u32 = add32(s0, maj);
        s = (add32(t1, t2), a, b, c, add32(d, t1), e, f, g);
        t = t + 1;
    }
    let mut out: Vec<u32> = Vec::new();
    out.push(add32(h[0], s.0));
    out.push(add32(h[1], s.1));
    out.push(add32(h[2], s.2));
    out.push(add32(h[3], s.3));
    out.push(add32(h[4], s.4));
    out.push(add32(h[5], s.5));
    out.push(add32(h[6], s.6));
    out.push(add32(h[7], s.7));
    out
}

/// Compute the SHA-256 digest of `input`.
pub fn digest(input: &[u8]) -> (r: [u8; 32])
    ensures
        r@ == digest_of(input@),
{
    let m = pad_message(input);
    let k: [u32; 64] = round_constants();
    let mut h: Vec<u32> = Vec::new();
    h.push(0x6a09e667);
    h.push(0xbb67ae85);
    h.push(0x3c6ef372);
    h.push(0xa54ff53a);
    h.push(0x510e527f);
    h.push(0x9b05688c);
    h.push(0x1f83d9ab);
    h.push(0x5be0cd19);
    let mut n: usize = 0;
    let blocks: usize = m.len() / 64;
    while n < blocks
        invariant
            n <= blocks,
            blocks * 64 == m@.len(),
            m@.len() <= usize::MAX,
            k@ == constants(),
            h@.len() == 8,
            state_of(h@) == after_blocks(m@, n as int),
        decreases blocks - n,
    {
        h = process_chunk(&m, n * 64, &h, &k);
        n = n + 1;
    }
    let bytes = bytes_of_words(&h);
    proof {
        let s = state_of(h@);
        assert(h@ =~= seq![s.a, s.b, s.c, s.d, s.e, s.f, s.g, s.h]);
    }
    let mut out: [u8; 32] = [0u8; 32];
    let mut i: usize = 0;
    while i < 32
        invariant
            i <= 32,
            bytes@.len() == 32,
            forall|j: int| 0 <= j < i ==> #[trigger] out@[j] == bytes@[j],
        decreases 32 - i,
    {
        out[i] = bytes[i];
        i = i + 1;
    }
    proof {
        assert(out@ =~= bytes@);
    }
    out
}

} // verus!
