//! The `caching_sha2_password` authentication plugin, MySQL 8.0's default.
//!
//! The client's reply is
//! `SHA256(password) XOR SHA256(SHA256(SHA256(password)) ++ nonce)`. The server
//! stores `SHA256(SHA256(password))`, which is always at hand, so it always
//! takes the fast path and never asks for the password itself. The stored hash
//! comes before the nonce here, the other way round than in
//! `mysql_native_password`.
use vstd::prelude::*;

use crate::auth::mix::{constant_time_eq, lemma_xor_twice, xor, xor_bytes};
use crate::auth::sha256;
use crate::auth::words::{lemma_words_bytes_len, padded};
use crate::bytes::push_bytes;

verus! {

/// Length of a fast-auth reply: one SHA-256 digest.
pub const FAST_AUTH_RESPONSE_LEN: usize = 32;

/// What is stored of a password.
pub open spec fn stored_of(password: Seq<u8>) -> Seq<u8> {
    sha256::digest_of(sha256::digest_of(password))
}

/// What hides the single-hashed password in transit.
pub open spec fn mask(stored: Seq<u8>, nonce: Seq<u8>) -> Seq<u8> {
    sha256::digest_of(stored + nonce)
}

/// What a client sends: nothing if it has no password.
pub open spec fn reply_to(password: Option<Seq<u8>>, nonce: Seq<u8>) -> Seq<u8> {
    match password {
        Some(p) => if p.len() > 0 {
            xor(sha256::digest_of(p), mask(stored_of(p), nonce))
        } else {
            Seq::empty()
        },
        None => Seq::empty(),
    }
}

/// Whether a reply proves knowledge of the password behind `stored`; without a
/// password, the reply has to be empty.
pub open spec fn verifies(reply: Seq<u8>, nonce: Seq<u8>, stored: Option<Seq<u8>>) -> bool {
    match stored {
        None => reply.len() == 0,
        Some(h) => reply.len() == 32 && sha256::digest_of(xor(reply, mask(h, nonce))) == h,
    }
}

pub proof fn lemma_digest_len(m: Seq<u8>)
    ensures
        sha256::digest_of(m).len() == 32,
{
    let s = sha256::after_blocks(padded(m), padded(m).len() as int / 64);
    lemma_words_bytes_len(seq![s.a, s.b, s.c, s.d, s.e, s.f, s.g, s.h]);
}

/// The right password is always accepted, whatever the nonce.
pub proof fn law_right_password_is_accepted(password: Seq<u8>, nonce: Seq<u8>)
    requires
        password.len() > 0,
    ensures
        verifies(reply_to(Some(password), nonce), nonce, Some(stored_of(password))),
{
    lemma_digest_len(password);
    lemma_digest_len(stored_of(password) + nonce);
    lemma_xor_twice(sha256::digest_of(password), mask(stored_of(password), nonce));
}

/// Compute the stored credential for a plaintext password:
/// `SHA256(SHA256(password))`.
pub fn hash_password(password: &[u8]) -> (r: [u8; 32])
    ensures
        r@ == stored_of(password@),
{
    let once: [u8; 32] = sha256::digest(password);
    sha256::digest(once.as_slice())
}

fn mask_bytes(stored: &[u8], nonce: &[u8]) -> (r: [u8; 32])
    ensures
        r@ == mask(stored@, nonce@),
{
    let mut combined: Vec<u8> = Vec::new();
    push_bytes(&mut combined, stored);
    push_bytes(&mut combined, nonce);
    proof {
        assert(combined@ =~= stored@ + nonce@);
    }
    sha256::digest(combined.as_slice())
}

/// Compute the fast-auth reply a client sends for a password and a nonce. An
/// empty or absent password yields an empty reply.
pub fn scramble(password: Option<&[u8]>, nonce: &[u8]) -> (r: Vec<u8>)
    ensures
        r@ == reply_to(
            match password {
                Some(p) => Some(p@),
                None => None,
            },
            nonce@,
        ),
{
    match password {
        Some(p) => {
            if p.len() == 0 {
                return Vec::new();
            }
            let digest1: [u8; 32] = sha256::digest(p);
            let digest2: [u8; 32] = sha256::digest(digest1.as_slice());
            let hidden: [u8; 32] = mask_bytes(digest2.as_slice(), nonce);
            xor_bytes(digest1.as_slice(), hidden.as_slice())
        },
        None => Vec::new(),
    }
}

/// Verify a client's fast-auth reply against the stored hash and the nonce
/// that was sent.
pub fn verify(reply: &[u8], nonce: &[u8], stored: Option<&[u8; 32]>) -> (r: bool)
    ensures
        r == verifies(
            reply@,
            nonce@,
            match stored {
                Some(h) => Some(h@),
                None => None,
            },
        ),
{
    match stored {
        None => reply.len() == 0,
        Some(hash) => {
            if reply.len() != FAST_AUTH_RESPONSE_LEN {
                return false;
            }
            let hidden: [u8; 32] = mask_bytes(hash.as_slice(), nonce);
            let digest1 = xor_bytes(reply, hidden.as_slice());
            let digest2: [u8; 32] = sha256::digest(digest1.as_slice());
            constant_time_eq(digest2.as_slice(), hash.as_slice())
        },
    }
}

} // verus!
