//! SHA-1 (FIPS 180-4). It is broken as far as collisions go, which does not
//! matter to a challenge-response scramble.
use vstd::prelude::*;

use crate::auth::words::{
    add32, bytes_of_words, pad_message, padded, read_word, rotate_left, rotl, sum, word,
    words_bytes,
};

verus! {

/// The state between blocks and between rounds.
pub ghost struct State {
    pub a: u32,
    pub b: u32,
    pub c: u32,
    pub d: u32,
    pub e: u32,
}

pub open spec fn initial() -> State {
    State { a: 0x67452301, b: 0xEFCDAB89, c: 0x98BADCFE, d: 0x10325476, e: 0xC3D2E1F0 }
}

/// Word `t` of the message schedule of the block at `at`.
pub open spec fn schedule(m: Seq<u8>, at: int, t: int) -> u32
    decreases t,
{
    if t < 16 {
        word(m, at + 4 * t)
    } else {
        rotl(
            schedule(m, at, t - 3) ^ schedule(m, at, t - 8) ^ schedule(m, at, t - 14) ^ schedule(
                m,
                at,
                t - 16,
            ),
            1,
        )
    }
}

/// The function of round `t`.
pub open spec fn mix(t: int, b: u32, c: u32, d: u32) -> u32 {
    if t < 20 {
        (b & c) | ((!b) & d)
    } else if t < 40 {
        b ^ c ^ d
    } else if t < 60 {
        (b & c) | (b & d) | (c & d)
    } else {
        b ^ c ^ d
    }
}

/// The constant of round `t`.
pub open spec fn constant(t: int) -> u32 {
    if t < 20 {
        0x5A827999
    } else if t < 40 {
        0x6ED9EBA1
    } else if t < 60 {
        0x8F1BBCDC
    } else {
        0xCA62C1D6
    }
}

/// The state after the first `n` rounds of a block.
pub open spec fn rounds(m: Seq<u8>, at: int, start: State, n: int) -> State
    decreases n,
{
    if n <= 0 {
        start
    } else {
        let s = rounds(m, at, start, n - 1);
        State {
            a: sum(
                sum(
                    sum(sum(rotl(s.a, 5), mix(n - 1, s.b, s.c, s.d)), s.e),
                    constant(n - 1),
                ),
                schedule(m, at, n - 1),
            ),
            b: s.a,
            c: rotl(s.b, 30),
            d: s.c,
            e: s.d,
        }
    }
}

/// The state after the block at `at`.
pub open spec fn after_block(m: Seq<u8>, at: int, start: State) -> State {
    let s = rounds(m, at, start, 80);
    State {
        a: sum(start.a, s.a),
        b: sum(start.b, s.b),
        c: sum(start.c, s.c),
        d: sum(start.d, s.d),
        e: sum(start.e, s.e),
    }
}

/// The state after the first `n` blocks.
pub open spec fn after_blocks(m: Seq<u8>, n: int) -> State
    decreases n,
{
    if n <= 0 {
        initial()
    } else {
        after_block(m, 64 * (n - 1), after_blocks(m, n - 1))
    }
}

/// The SHA-1 digest of a message.
pub open spec fn digest_of(m: Seq<u8>) -> Seq<u8> {
    let s = after_blocks(padded(m), padded(m).len() as int / 64);
    words_bytes(seq![s.a, s.b, s.c, s.d, s.e])
}

fn expand(m: &Vec<u8>, at: usize) -> (r: Vec<u32>)
    requires
        at + 64 <= m@.len(),
    ensures
        r@.len() == 80,
        forall|t: int| 0 <= t < 80 ==> #[trigger] r@[t] == schedule(m@, at as int, t),
{
    let _len: usize = m.len();
    let mut w: Vec<u32> = Vec::new();
    let mut t: usize = 0;
    while t < 80
        invariant
            t <= 80,
            at + 64 <= m@.len() <= usize::MAX,
            w@.len() == t,
            forall|k: int| 0 <= k < t ==> #[trigger] w@[k] == schedule(m@, at as int, k),
        decreases 80 - t,
    {
        if t < 16 {
            w.push(read_word(m, at + 4 * t));
        } else {
            w.push(rotate_left(w[t - 3] ^ w[t - 8] ^ w[t - 14] ^ w[t - 16], 1));
        }
        t = t + 1;
    }
    w
}

/// Five words as a state.
pub open spec fn state_of(h: Seq<u32>) -> State {
    State { a: h[0], b: h[1], c: h[2], d: h[3], e: h[4] }
}

fn process_chunk(m: &Vec<u8>, at: usize, h: &Vec<u32>) -> (r: Vec<u32>)
    requires
        at + 64 <= m@.len(),
        h@.len() == 5,
    ensures
        r@.len() == 5,
        state_of(r@) == after_block(m@, at as int, state_of(h@)),
{
    let w = expand(m, at);
    let ghost start = state_of(h@);
    let mut a: u32 = h[0];
    let mut b: u32 = h[1];
    let mut c: u32 = h[2];
    let mut d: u32 = h[3];
    let mut e: u32 = h[4];
    let mut t: usize = 0;
    while t < 80
        invariant
            t <= 80,
            w@.len() == 80,
            forall|k: int| 0 <= k < 80 ==> #[trigger] w@[k] == schedule(m@, at as int, k),
            (State { a, b, c, d, e }) == rounds(m@, at as int, start, t as int),
        decreases 80 - t,
    {
        let f: u32;
        let k: u32;
        if t < 20 {
            f = (b & c) | ((!b) & d);
            k = 0x5A827999;
        } else if t < 40 {
            f = b ^ c ^ d;
            k = 0x6ED9EBA1;
        } else if t < 60 {
            f = (b & c) | (b & d) | (c & d);
            k = 0x8F1BBCDC;
        } else {
            f = b ^ c ^ d;
            k = 0xCA62C1D6;
        }
        let next: u32 = add32(add32(add32(add32(rotate_left(a, 5), f), e), k), w[t]);
        e = d;
        d = c;
        c = rotate_left(b, 30);
        b = a;
        a = next;
        t = t + 1;
    }
    let mut out: Vec<u32> = Vec::new();
    out.push(add32(h[0], a));
    out.push(add32(h[1], b));
    out.push(add32(h[2], c));
    out.push(add32(h[3], d));
    out.push(add32(h[4], e));
    out
}

/// Compute the SHA-1 digest of `input`.
pub fn digest(input: &[u8]) -> (r: [u8; 20])
    ensures
        r@ == digest_of(input@),
{
    let m = pad_message(input);
    let mut h: Vec<u32> = Vec::new();
    h.push(0x67452301);
    h.push(0xEFCDAB89);
    h.push(0x98BADCFE);
    h.push(0x10325476);
    h.push(0xC3D2E1F0);
    let mut n: usize = 0;
    let blocks: usize = m.len() / 64;
    while n < blocks
        invariant
            n <= blocks,
            blocks * 64 == m@.len(),
            m@.len() <= usize::MAX,
            h@.len() == 5,
            state_of(h@) == after_blocks(m@, n as int),
        decreases blocks - n,
    {
        h = process_chunk(&m, n * 64, &h);
        n = n + 1;
    }
    let bytes = bytes_of_words(&h);
    proof {
        let s = state_of(h@);
        assert(h@ =~= seq![s.a, s.b, s.c, s.d, s.e]);
    }
    let mut out: [u8; 20] = [0u8; 20];
    let mut i: usize = 0;
    while i < 20
        invariant
            i <= 20,
            bytes@.len() == 20,
            forall|k: int| 0 <= k < i ==> #[trigger] out@[k] == bytes@[k],
        decreases 20 - i,
    {
        out[i] = bytes[i];
        i = i + 1;
    }
    proof {
        assert(out@ =~= bytes@);
    }
    out
}

} // verus!
