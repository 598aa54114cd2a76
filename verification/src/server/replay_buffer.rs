//! Bytes that were read ahead and are handed on before a stream's own.
use vstd::prelude::*;

use crate::bytes::copy_range;

verus! {

/// Bytes already taken off a socket, given out again from the front. When a
/// client sends its first TLS bytes right behind its request for TLS, they
/// arrive in the plain read buffer; the TLS handshake has to see them first.
#[derive(Debug)]
pub struct ReplayBuffer {
    bytes: Vec<u8>,
    pos: usize,
}

impl View for ReplayBuffer {
    type V = Seq<u8>;

    /// What is still to be given out.
    closed spec fn view(&self) -> Seq<u8> {
        self.bytes@.subrange(self.pos as int, self.bytes@.len() as int)
    }
}

impl ReplayBuffer {
    #[verifier::type_invariant]
    spec fn inv(self) -> bool {
        self.pos <= self.bytes@.len()
    }

    pub fn new(bytes: Vec<u8>) -> (r: Self)
        ensures
            r@ == bytes@,
    {
        let r = ReplayBuffer { bytes, pos: 0 };
        proof {
            assert(r@ =~= bytes@);
        }
        r
    }

    /// Whether everything has been given out.
    pub fn is_done(&self) -> (r: bool)
        ensures
            r == (self@.len() == 0),
    {
        proof {
            use_type_invariant(self);
        }
        self.pos == self.bytes.len()
    }

    /// The next bytes, as many as there is room for.
    pub fn take(&mut self, room: usize) -> (r: Vec<u8>)
        ensures
            r@ + final(self)@ == old(self)@,
            r@.len() == (if old(self)@.len() <= room {
                old(self)@.len()
            } else {
                room as nat
            }),
    {
        proof {
            use_type_invariant(&*self);
        }
        let left: usize = self.bytes.len() - self.pos;
        let n: usize = if left <= room {
            left
        } else {
            room
        };
        let out = copy_range(self.bytes.as_slice(), self.pos, self.pos + n);
        self.pos = self.pos + n;
        proof {
            assert(out@ + self@ =~= old(self)@);
        }
        out
    }
}

} // verus!
