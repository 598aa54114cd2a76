//! Length-encoded integers and strings, as used throughout the protocol.
use vstd::prelude::*;
use vstd::utf8::encode_utf8;

use crate::bytes::{
    le, le_value, lemma_le_len, lemma_le_round_trip, lemma_pow256, push_bytes, push_le, read_le,
};
use crate::error::{Error, ErrorV};

verus! {

/// The encoding of an integer: one byte where it fits, otherwise a marker and
/// two, three or eight bytes.
pub open spec fn enc_int(n: nat) -> Seq<u8> {
    if n < 0xfb {
        seq![n as u8]
    } else if n <= 0xffff {
        seq![0xfcu8] + le(n, 2)
    } else if n <= 0xff_ffff {
        seq![0xfdu8] + le(n, 3)
    } else {
        seq![0xfeu8] + le(n, 8)
    }
}

/// The encoding of bytes: their number, then the bytes.
pub open spec fn enc_bytes(b: Seq<u8>) -> Seq<u8> {
    enc_int(b.len()) + b
}

/// The encoding of a text.
pub open spec fn enc_str(s: Seq<char>) -> Seq<u8> {
    enc_bytes(encode_utf8(s))
}

/// `width` bytes behind a marker.
pub open spec fn dec_wide(buf: Seq<u8>, width: int, what: Seq<char>) -> Result<
    (nat, int),
    ErrorV,
> {
    if buf.len() < 1 + width {
        Err(ErrorV::Protocol(what))
    } else {
        Ok((le_value(buf.subrange(1, 1 + width)), 1 + width))
    }
}

/// What the integer at the front of `buf` is, and how many bytes it takes.
pub open spec fn dec_int(buf: Seq<u8>) -> Result<(nat, int), ErrorV> {
    if buf.len() == 0 {
        Err(ErrorV::Protocol("lenenc-int: empty buffer"@))
    } else if buf[0] < 0xfb {
        Ok((buf[0] as nat, 1))
    } else if buf[0] == 0xfb {
        Err(ErrorV::Protocol("lenenc-int: unexpected NULL marker (0xfb)"@))
    } else if buf[0] == 0xfc {
        dec_wide(buf, 2, "lenenc-int: truncated 2-byte value"@)
    } else if buf[0] == 0xfd {
        dec_wide(buf, 3, "lenenc-int: truncated 3-byte value"@)
    } else if buf[0] == 0xfe {
        dec_wide(buf, 8, "lenenc-int: truncated 8-byte value"@)
    } else {
        Err(ErrorV::Protocol("lenenc-int: unexpected error marker (0xff)"@))
    }
}

/// Every integer reads back from its own encoding, whatever follows it.
pub proof fn law_integers_read_back(n: u64, rest: Seq<u8>)
    ensures
        dec_int(enc_int(n as nat) + rest) == Ok::<(nat, int), ErrorV>(
            (n as nat, enc_int(n as nat).len() as int),
        ),
{
    let all = enc_int(n as nat) + rest;
    lemma_pow256();
    lemma_le_len(n as nat, 2);
    lemma_le_len(n as nat, 3);
    lemma_le_len(n as nat, 8);
    if n < 0xfb {
    } else if n <= 0xffff {
        lemma_le_round_trip(n as nat, 2);
        assert(all.subrange(1, 3) =~= le(n as nat, 2));
    } else if n <= 0xff_ffff {
        lemma_le_round_trip(n as nat, 3);
        assert(all.subrange(1, 4) =~= le(n as nat, 3));
    } else {
        lemma_le_round_trip(n as nat, 8);
        assert(all.subrange(1, 9) =~= le(n as nat, 8));
    }
}

fn read_wide(buf: &[u8], width: usize, what: &str) -> (r: Result<(u64, usize), Error>)
    requires
        width <= 8,
    ensures
        match r {
            Ok((n, used)) => dec_wide(buf@, width as int, what@) == Ok::<(nat, int), ErrorV>(
                (n as nat, used as int),
            ),
            Err(e) => dec_wide(buf@, width as int, what@) == Err::<(nat, int), ErrorV>(e@),
        },
{
    if buf.len() < 1 + width {
        return Err(Error::Protocol(what.to_string()));
    }
    Ok((read_le(buf, 1, width), 1 + width))
}

/// Read a length-encoded integer from the start of `buf`: the value and the
/// number of bytes it takes.
pub fn read_lenenc_int(buf: &[u8]) -> (r: Result<(u64, usize), Error>)
    ensures
        match r {
            Ok((n, used)) => dec_int(buf@) == Ok::<(nat, int), ErrorV>((n as nat, used as int))
                && used <= buf@.len(),
            Err(e) => dec_int(buf@) == Err::<(nat, int), ErrorV>(e@),
        },
{
    if buf.len() == 0 {
        return Err(Error::Protocol("lenenc-int: empty buffer".to_string()));
    }
    let first: u8 = buf[0];
    if first < 0xfb {
        Ok((first as u64, 1))
    } else if first == 0xfb {
        Err(Error::Protocol("lenenc-int: unexpected NULL marker (0xfb)".to_string()))
    } else if first == 0xfc {
        read_wide(buf, 2, "lenenc-int: truncated 2-byte value")
    } else if first == 0xfd {
        read_wide(buf, 3, "lenenc-int: truncated 3-byte value")
    } else if first == 0xfe {
        read_wide(buf, 8, "lenenc-int: truncated 8-byte value")
    } else {
        Err(Error::Protocol("lenenc-int: unexpected error marker (0xff)".to_string()))
    }
}

/// Append a length-encoded integer.
pub fn push_lenenc_int(out: &mut Vec<u8>, value: u64)
    ensures
        final(out)@ == old(out)@ + enc_int(value as nat),
{
    if value < 0xfb {
        out.push(value as u8);
    } else if value <= 0xffff {
        out.push(0xfc);
        push_le(out, value, 2);
    } else if value <= 0xff_ffff {
        out.push(0xfd);
        push_le(out, value, 3);
    } else {
        out.push(0xfe);
        push_le(out, value, 8);
    }
    proof {
        assert(out@ =~= old(out)@ + enc_int(value as nat));
    }
}

/// Append a length-encoded string.
pub fn push_lenenc_bytes(out: &mut Vec<u8>, bytes: &[u8])
    ensures
        final(out)@ == old(out)@ + enc_bytes(bytes@),
{
    push_lenenc_int(out, bytes.len() as u64);
    push_bytes(out, bytes);
    proof {
        assert(out@ =~= old(out)@ + enc_bytes(bytes@));
    }
}

/// Encode `value` as a length-encoded integer.
pub fn write_lenenc_int(value: u64) -> (r: Vec<u8>)
    ensures
        r@ == enc_int(value as nat),
{
    let mut out: Vec<u8> = Vec::new();
    push_lenenc_int(&mut out, value);
    proof {
        assert(out@ =~= enc_int(value as nat));
    }
    out
}

/// Encode `bytes` as a length-encoded string.
pub fn write_lenenc_bytes(bytes: &[u8]) -> (r: Vec<u8>)
    ensures
        r@ == enc_bytes(bytes@),
{
    let mut out: Vec<u8> = Vec::new();
    push_lenenc_bytes(&mut out, bytes);
    proof {
        assert(out@ =~= enc_bytes(bytes@));
    }
    out
}

/// Encode `s` as a length-encoded string.
pub fn write_lenenc_str(s: &str) -> (r: Vec<u8>)
    ensures
        r@ == enc_str(s@),
{
    write_lenenc_bytes(s.as_bytes())
}

} // verus!
