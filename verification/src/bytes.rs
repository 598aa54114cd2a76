//! Fixed-width little-endian integers and byte buffers.
use vstd::prelude::*;
use vstd::arithmetic::power::pow;

verus! {

/// The `width` low-order base-256 digits of `n`, least significant first.
pub open spec fn le(n: nat, width: nat) -> Seq<u8>
    decreases width,
{
    if width == 0 {
        Seq::empty()
    } else {
        seq![(n % 256) as u8] + le(n / 256, (width - 1) as nat)
    }
}

/// The number whose base-256 digits are `s`, least significant first.
pub open spec fn le_value(s: Seq<u8>) -> nat
    decreases s.len(),
{
    if s.len() == 0 {
        0
    } else {
        s[0] as nat + 256 * le_value(s.drop_first())
    }
}

/// The two's-complement reading of an unsigned number of `bits` bits.
pub open spec fn signed(n: nat, half: nat) -> int {
    if n < half {
        n as int
    } else {
        n - 2 * half
    }
}

/// The unsigned number that a 64-bit two's-complement number is stored as.
pub open spec fn unsigned64(n: int) -> nat {
    if n < 0 {
        (n + 0x1_0000_0000_0000_0000) as nat
    } else {
        n as nat
    }
}

pub proof fn lemma_le_len(n: nat, width: nat)
    ensures
        le(n, width).len() == width,
    decreases width,
{
    if width > 0 {
        lemma_le_len(n / 256, (width - 1) as nat);
    }
}

/// A number that fits is recovered from its digits.
pub proof fn lemma_le_round_trip(n: nat, width: nat)
    requires
        n < pow(256, width),
    ensures
        le(n, width).len() == width,
        le_value(le(n, width)) == n,
    decreases width,
{
    reveal(pow);
    if width > 0 {
        let w = (width - 1) as nat;
        assert(pow(256, width) == 256 * pow(256, w));
        assert(n / 256 < pow(256, w));
        lemma_le_round_trip(n / 256, w);
        assert(le(n, width).drop_first() =~= le(n / 256, w));
    }
}

/// Digits are recovered from the number they denote.
pub proof fn lemma_le_value_round_trip(s: Seq<u8>)
    ensures
        le(le_value(s), s.len()) == s,
    decreases s.len(),
{
    if s.len() > 0 {
        let rest = s.drop_first();
        lemma_le_value_round_trip(rest);
        let n = le_value(s);
        assert(n % 256 == s[0]);
        assert(n / 256 == le_value(rest));
        assert(seq![s[0]] + rest =~= s);
    }
}

/// `width` digits denote a number below 256 to that power.
pub proof fn lemma_le_value_bound(s: Seq<u8>)
    ensures
        le_value(s) < pow(256, s.len()),
    decreases s.len(),
{
    reveal(pow);
    if s.len() > 0 {
        lemma_le_value_bound(s.drop_first());
        assert(pow(256, s.len()) == 256 * pow(256, (s.len() - 1) as nat));
    }
}

/// The powers of 256 that matter.
pub proof fn lemma_pow256()
    ensures
        pow(256, 0) == 1,
        pow(256, 1) == 0x100,
        pow(256, 2) == 0x1_0000,
        pow(256, 3) == 0x100_0000,
        pow(256, 4) == 0x1_0000_0000,
        pow(256, 8) == 0x1_0000_0000_0000_0000,
{
    reveal(pow);
    assert(pow(256, 0) == 1);
    assert(pow(256, 1) == 256 * pow(256, 0));
    assert(pow(256, 2) == 256 * pow(256, 1));
    assert(pow(256, 3) == 256 * pow(256, 2));
    assert(pow(256, 4) == 256 * pow(256, 3));
    assert(pow(256, 5) == 256 * pow(256, 4));
    assert(pow(256, 6) == 256 * pow(256, 5));
    assert(pow(256, 7) == 256 * pow(256, 6));
    assert(pow(256, 8) == 256 * pow(256, 7));
}

/// Append the `width` low-order bytes of `n`, least significant first.
pub fn push_le(out: &mut Vec<u8>, n: u64, width: usize)
    ensures
        final(out)@ == old(out)@ + le(n as nat, width as nat),
{
    let mut rest: u64 = n;
    let mut left: usize = width;
    let ghost before = out@;
    let ghost whole = le(n as nat, width as nat);
    let ghost mut done: Seq<u8> = Seq::empty();
    proof {
        assert(done + whole =~= whole);
        assert(out@ =~= before + done);
    }
    while left > 0
        invariant
            left <= width,
            whole == done + le(rest as nat, left as nat),
            out@ == before + done,
        decreases left,
    {
        let low: u8 = (rest % 256) as u8;
        proof {
            let tail = le((rest / 256) as nat, (left - 1) as nat);
            assert(done + (seq![low] + tail) =~= done.push(low) + tail);
            assert((before + done).push(low) =~= before + done.push(low));
            done = done.push(low);
        }
        out.push(low);
        rest = rest / 256;
        left = left - 1;
    }
    proof {
        assert(done + Seq::<u8>::empty() =~= done);
    }
}

/// Append all of `bytes`.
pub fn push_bytes(out: &mut Vec<u8>, bytes: &[u8])
    ensures
        final(out)@ == old(out)@ + bytes@,
{
    out.extend_from_slice(bytes);
    proof {
        assert(out@ =~= old(out)@ + bytes@);
    }
}

/// Append `n` copies of `b`.
pub fn push_repeated(out: &mut Vec<u8>, b: u8, n: usize)
    ensures
        final(out)@ == old(out)@ + Seq::new(n as nat, |i: int| b),
{
    let ghost before = out@;
    let mut i: usize = 0;
    proof {
        assert(out@ =~= before + Seq::new(0, |i: int| b));
    }
    while i < n
        invariant
            i <= n,
            out@ == before + Seq::new(i as nat, |i: int| b),
        decreases n - i,
    {
        out.push(b);
        proof {
            assert(out@ =~= before + Seq::new((i + 1) as nat, |i: int| b));
        }
        i = i + 1;
    }
}

/// A copy of `bytes[from..to]`.
pub fn copy_range(bytes: &[u8], from: usize, to: usize) -> (r: Vec<u8>)
    requires
        from <= to <= bytes@.len(),
    ensures
        r@ == bytes@.subrange(from as int, to as int),
{
    vstd::slice::slice_to_vec(vstd::slice::slice_subrange(bytes, from, to))
}

/// Read `bytes[from..from + width]` as a little-endian number.
pub fn read_le(bytes: &[u8], from: usize, width: usize) -> (r: u64)
    requires
        width <= 8,
        from + width <= bytes@.len(),
    ensures
        r == le_value(bytes@.subrange(from as int, from + width)),
{
    let ghost all = bytes@.subrange(from as int, from + width);
    let mut value: u64 = 0;
    let mut left: usize = width;
    let _len: usize = bytes.len();
    proof {
        assert(all.subrange(width as int, width as int) =~= Seq::empty());
    }
    while left > 0
        invariant
            left <= width <= 8,
            from + width <= bytes@.len() <= usize::MAX,
            all == bytes@.subrange(from as int, from + width),
            value == le_value(all.subrange(left as int, width as int)),
        decreases left,
    {
        let b: u8 = bytes[from + left - 1];
        proof {
            let tail = all.subrange(left as int, width as int);
            let more = all.subrange(left - 1, width as int);
            assert(more[0] == b);
            assert(more.drop_first() =~= tail);
            lemma_le_value_bound(tail);
            lemma_le_value_bound(more);
            lemma_pow256();
            lemma_pow256_monotone(tail.len(), 7);
            lemma_pow256_monotone(more.len(), 8);
            assert(le_value(more) == b as nat + 256 * le_value(tail));
        }
        value = b as u64 + 256 * value;
        left = left - 1;
    }
    proof {
        assert(all.subrange(0, width as int) =~= all);
    }
    value
}

pub proof fn lemma_pow256_monotone(a: nat, b: nat)
    requires
        a <= b,
    ensures
        pow(256, a) <= pow(256, b),
        pow(256, a) >= 1,
    decreases b,
{
    reveal(pow);
    if a < b {
        lemma_pow256_monotone(a, (b - 1) as nat);
    } else if a > 0 {
        lemma_pow256_monotone((a - 1) as nat, (a - 1) as nat);
    }
}

/// The unsigned number that `n` is stored as.
pub fn to_unsigned64(n: i64) -> (r: u64)
    ensures
        r == unsigned64(n as int),
{
    if n >= 0 {
        n as u64
    } else {
        (n + 0x7fff_ffff_ffff_ffff + 1) as u64 + 0x8000_0000_0000_0000
    }
}

/// The two's-complement reading of `n`, for numbers of 8, 16, 32 or 64 bits.
pub fn to_signed(n: u64, half: u64) -> (r: i64)
    requires
        0 < half <= 0x8000_0000_0000_0000,
        n < 2 * half,
    ensures
        r == signed(n as nat, half as nat),
{
    if n < half {
        n as i64
    } else {
        let above: u64 = n - half;
        if half == 0x8000_0000_0000_0000 {
            above as i64 - 0x7fff_ffff_ffff_ffff - 1
        } else {
            above as i64 - half as i64
        }
    }
}

} // verus!
