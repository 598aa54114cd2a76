//! Byte strings combined and compared.
use vstd::prelude::*;

verus! {

/// Two byte strings of the same length, combined bit by bit.
pub open spec fn xor(a: Seq<u8>, b: Seq<u8>) -> Seq<u8> {
    Seq::new(a.len(), |i: int| a[i] ^ b[i])
}

/// What is combined with the same bytes twice is what it was.
pub proof fn lemma_xor_twice(a: Seq<u8>, b: Seq<u8>)
    requires
        a.len() == b.len(),
    ensures
        xor(xor(a, b), b) == a,
{
    assert forall|i: int| 0 <= i < a.len() implies xor(xor(a, b), b)[i] == a[i] by {
        let x = a[i];
        let y = b[i];
        assert((x ^ y) ^ y == x) by (bit_vector);
    }
    assert(xor(xor(a, b), b) =~= a);
}

/// Two byte strings of the same length, combined bit by bit.
pub fn xor_bytes(a: &[u8], b: &[u8]) -> (r: Vec<u8>)
    requires
        a@.len() == b@.len(),
    ensures
        r@ == xor(a@, b@),
{
    let mut out: Vec<u8> = Vec::new();
    let mut i: usize = 0;
    while i < a.len()
        invariant
            i <= a@.len(),
            a@.len() == b@.len(),
            out@.len() == i,
            forall|k: int| 0 <= k < i ==> #[trigger] out@[k] == a@[k] ^ b@[k],
        decreases a@.len() - i,
    {
        out.push(a[i] ^ b[i]);
        i = i + 1;
    }
    proof {
        assert(out@ =~= xor(a@, b@));
    }
    out
}

/// Compare two byte strings without stopping at the first difference.
pub fn constant_time_eq(a: &[u8], b: &[u8]) -> (r: bool)
    ensures
        r == (a@ == b@),
{
    if a.len() != b.len() {
        return false;
    }
    let mut diff: u8 = 0;
    let mut i: usize = 0;
    proof {
        assert(a@.take(0) =~= b@.take(0));
    }
    while i < a.len()
        invariant
            i <= a@.len(),
            a@.len() == b@.len(),
            diff == 0 <==> a@.take(i as int) == b@.take(i as int),
        decreases a@.len() - i,
    {
        let x: u8 = a[i];
        let y: u8 = b[i];
        let before: u8 = diff;
        diff = before | (x ^ y);
        proof {
            assert((before | (x ^ y)) == 0 <==> before == 0 && x == y) by (bit_vector);
            let s = a@.take(i + 1);
            let t = b@.take(i + 1);
            assert(s =~= a@.take(i as int).push(x));
            assert(t =~= b@.take(i as int).push(y));
            if s == t {
                assert(s.drop_last() == t.drop_last());
                assert(s.drop_last() =~= a@.take(i as int));
                assert(t.drop_last() =~= b@.take(i as int));
                assert(s.last() == t.last());
            }
        }
        i = i + 1;
    }
    proof {
        assert(a@.take(a@.len() as int) =~= a@);
        assert(b@.take(b@.len() as int) =~= b@);
    }
    diff == 0
}

} // verus!
