//! Framing for protocol packets: a 3-byte little-endian payload length, a
//! 1-byte sequence id, then the payload.
use vstd::prelude::*;

use crate::bytes::{
    copy_range, le, le_value, lemma_le_len, lemma_le_round_trip, lemma_le_value_bound,
    lemma_pow256, push_bytes, push_le, read_le,
};
use crate::error::{Error, ErrorV};
use crate::text::{cat3, cat4, decimal, u64_text};

verus! {

/// Size of a packet header: 3 length bytes and 1 sequence byte.
pub const HEADER_LEN: usize = 4;

/// Maximum payload that fits in a single wire packet (2^24 - 1).
pub const MAX_PAYLOAD: usize = 0xFF_FF_FF;

/// A single, decoded protocol packet.
#[derive(Debug, Clone, Default, PartialEq, Eq)]
pub struct Packet {
    /// Sequence id, used to detect out-of-order or dropped packets.
    pub sequence_id: u8,
    /// The raw payload, excluding the header.
    pub payload: Vec<u8>,
}

/// The content of a [`Packet`].
pub ghost struct PacketV {
    pub sequence_id: u8,
    pub payload: Seq<u8>,
}

impl View for Packet {
    type V = PacketV;

    open spec fn view(&self) -> PacketV {
        PacketV { sequence_id: self.sequence_id, payload: self.payload@ }
    }
}

impl PacketV {
    /// The packet on the wire.
    pub open spec fn wire(self) -> Seq<u8> {
        le(self.payload.len(), 3) + seq![self.sequence_id] + self.payload
    }
}

/// The length that a header announces.
pub open spec fn announced(buf: Seq<u8>) -> nat {
    le_value(buf.subrange(0, 3))
}

/// The packet at the front of `buf` and how many bytes it takes, once all of
/// it is there.
pub open spec fn first_packet(buf: Seq<u8>) -> Option<(PacketV, int)> {
    if buf.len() < 4 || buf.len() < 4int + announced(buf) {
        None
    } else {
        Some(
            (
                PacketV { sequence_id: buf[3], payload: buf.subrange(4, 4int + announced(buf)) },
                4int + announced(buf),
            ),
        )
    }
}

/// Every packet that fits in a frame reads back from the wire, whatever
/// follows it.
pub proof fn law_packets_read_back(p: PacketV, rest: Seq<u8>)
    requires
        p.payload.len() <= MAX_PAYLOAD,
    ensures
        first_packet(p.wire() + rest) == Some((p, p.wire().len() as int)),
        p.wire().len() == 4 + p.payload.len(),
{
    let buf = p.wire() + rest;
    lemma_pow256();
    lemma_le_len(p.payload.len(), 3);
    lemma_le_round_trip(p.payload.len(), 3);
    assert(buf.subrange(0, 3) =~= le(p.payload.len(), 3));
    assert(buf.subrange(4, 4int + p.payload.len()) =~= p.payload);
}

/// Before its last byte has arrived, a packet is not there.
pub proof fn law_partial_packets_wait(p: PacketV, n: int)
    requires
        p.payload.len() <= MAX_PAYLOAD,
        0 <= n < p.wire().len(),
    ensures
        first_packet(p.wire().take(n)) is None,
{
    lemma_pow256();
    lemma_le_len(p.payload.len(), 3);
    lemma_le_round_trip(p.payload.len(), 3);
    let buf = p.wire().take(n);
    if n >= 4 {
        assert(buf.subrange(0, 3) =~= le(p.payload.len(), 3));
    }
}

/// The error for a payload that no single packet can hold.
pub open spec fn oversized(what: Seq<char>, len: nat) -> ErrorV {
    ErrorV::Protocol(
        what + " payload of "@ + decimal(len) + " bytes exceeds single-packet maximum"@,
    )
}

/// A payload as a packet, if it fits.
pub open spec fn sealed(what: Seq<char>, sequence_id: u8, payload: Seq<u8>) -> Result<
    PacketV,
    ErrorV,
> {
    if payload.len() > MAX_PAYLOAD {
        Err(oversized(what, payload.len()))
    } else {
        Ok(PacketV { sequence_id, payload })
    }
}

/// Whether a packet that was built is the wanted one.
pub open spec fn builds(r: Result<Packet, Error>, want: Result<PacketV, ErrorV>) -> bool {
    match r {
        Ok(p) => want == Ok::<PacketV, ErrorV>(p@),
        Err(e) => want == Err::<PacketV, ErrorV>(e@),
    }
}

/// Put a payload into a packet, if it fits.
pub fn seal(what: &str, sequence_id: u8, payload: Vec<u8>) -> (r: Result<Packet, Error>)
    ensures
        builds(r, sealed(what@, sequence_id, payload@)),
        r matches Ok(p) ==> p@.payload.len() <= MAX_PAYLOAD,
{
    if payload.len() > MAX_PAYLOAD {
        return Err(
            Error::Protocol(
                cat4(
                    what,
                    " payload of ",
                    u64_text(payload.len() as u64).as_str(),
                    " bytes exceeds single-packet maximum",
                ),
            ),
        );
    }
    Ok(Packet::new(sequence_id, payload))
}

impl Packet {
    /// Build a packet from a sequence id and payload.
    pub fn new(sequence_id: u8, payload: Vec<u8>) -> (r: Self)
        ensures
            r.sequence_id == sequence_id,
            r.payload == payload,
    {
        Packet { sequence_id, payload }
    }

    /// Append the packet (header and payload) to `out`.
    pub fn encode_into(&self, out: &mut Vec<u8>)
        requires
            self.payload@.len() <= MAX_PAYLOAD,
        ensures
            final(out)@ == old(out)@ + self@.wire(),
    {
        push_le(out, self.payload.len() as u64, 3);
        out.push(self.sequence_id);
        push_bytes(out, self.payload.as_slice());
        proof {
            assert(out@ =~= old(out)@ + self@.wire());
        }
    }

    /// Serialize the packet (header and payload) into bytes. The payload has
    /// to fit in a single frame.
    pub fn encode(&self) -> (r: Vec<u8>)
        requires
            self.payload@.len() <= MAX_PAYLOAD,
        ensures
            r@ == self@.wire(),
    {
        let mut out: Vec<u8> = Vec::new();
        self.encode_into(&mut out);
        proof {
            assert(out@ =~= self@.wire());
        }
        out
    }

    /// Parse a single complete packet from the front of `bytes`; what follows
    /// it is ignored.
    pub fn decode(bytes: &[u8]) -> (r: Result<Self, Error>)
        ensures
            match first_packet(bytes@) {
                Some((p, _)) => r matches Ok(x) && x@ == p,
                None => r matches Err(e) && e@ == ErrorV::Protocol(
                    "incomplete packet: have "@ + decimal(bytes@.len())
                        + " byte(s), need a full header plus payload"@,
                ),
            },
    {
        match Self::parse(bytes)? {
            Some((packet, _)) => Ok(packet),
            None => Err(
                Error::Protocol(
                    cat3(
                        "incomplete packet: have ",
                        u64_text(bytes.len() as u64).as_str(),
                        " byte(s), need a full header plus payload",
                    ),
                ),
            ),
        }
    }

    /// Try to parse one packet from the front of `buf`: the packet and the
    /// number of bytes it takes, or `None` if it is not all there yet.
    pub fn parse(buf: &[u8]) -> (r: Result<Option<(Packet, usize)>, Error>)
        ensures
            match first_packet(buf@) {
                Some((p, n)) => r matches Ok(Some((x, used))) && x@ == p && used == n && used
                    <= buf@.len(),
                None => r matches Ok(None),
            },
    {
        if buf.len() < HEADER_LEN {
            return Ok(None);
        }
        proof {
            lemma_pow256();
            lemma_le_value_bound(buf@.subrange(0, 3));
        }
        let length: usize = read_le(buf, 0, 3) as usize;
        let total: usize = HEADER_LEN + length;
        if buf.len() < total {
            return Ok(None);
        }
        let payload = copy_range(buf, HEADER_LEN, total);
        Ok(Some((Packet::new(buf[3], payload), total)))
    }
}

} // verus!
