//! The `mysql_native_password` authentication plugin.
//!
//! The client's token is
//! `SHA1(password) XOR SHA1(scramble ++ SHA1(SHA1(password)))`. The server
//! stores and only ever needs `SHA1(SHA1(password))`; neither the plaintext nor
//! the single-hashed password is persisted or transmitted.
use vstd::prelude::*;

use crate::auth::mix::{constant_time_eq, lemma_xor_twice, xor, xor_bytes};
use crate::auth::sha1;
use crate::auth::words::{lemma_words_bytes_len, padded};
use crate::bytes::push_bytes;

verus! {

/// What is stored of a password.
pub open spec fn stored(password: Seq<u8>) -> Seq<u8> {
    sha1::digest_of(sha1::digest_of(password))
}

/// What hides the single-hashed password in transit.
pub open spec fn mask(scramble: Seq<u8>, stored: Seq<u8>) -> Seq<u8> {
    sha1::digest_of(scramble + stored)
}

/// What a client sends: nothing if it has no password.
pub open spec fn response(password: Option<Seq<u8>>, scramble: Seq<u8>) -> Seq<u8> {
    match password {
        Some(p) => if p.len() > 0 {
            xor(sha1::digest_of(p), mask(scramble, stored(p)))
        } else {
            Seq::empty()
        },
        None => Seq::empty(),
    }
}

/// Whether a response proves knowledge of the password behind `hash`; without
/// a password, the response has to be empty.
pub open spec fn verifies(auth_response: Seq<u8>, scramble: Seq<u8>, hash: Option<Seq<u8>>) -> bool {
    match hash {
        None => auth_response.len() == 0,
        Some(h) => auth_response.len() == 20 && sha1::digest_of(
            xor(auth_response, mask(scramble, h)),
        ) == h,
    }
}

pub proof fn lemma_digest_len(m: Seq<u8>)
    ensures
        sha1::digest_of(m).len() == 20,
{
    let s = sha1::after_blocks(padded(m), padded(m).len() as int / 64);
    lemma_words_bytes_len(seq![s.a, s.b, s.c, s.d, s.e]);
}

/// The right password is always accepted, whatever the scramble.
pub proof fn law_right_password_is_accepted(password: Seq<u8>, scramble: Seq<u8>)
    requires
        password.len() > 0,
    ensures
        verifies(response(Some(password), scramble), scramble, Some(stored(password))),
{
    lemma_digest_len(password);
    lemma_digest_len(scramble + stored(password));
    lemma_xor_twice(sha1::digest_of(password), mask(scramble, stored(password)));
}

/// Compute the stored credential for a plaintext password:
/// `SHA1(SHA1(password))`.
pub fn hash_password(password: &[u8]) -> (r: [u8; 20])
    ensures
        r@ == stored(password@),
{
    let once: [u8; 20] = sha1::digest(password);
    sha1::digest(once.as_slice())
}

fn mask_bytes(scramble: &[u8], hash: &[u8]) -> (r: [u8; 20])
    ensures
        r@ == mask(scramble@, hash@),
{
    let mut combined: Vec<u8> = Vec::new();
    push_bytes(&mut combined, scramble);
    push_bytes(&mut combined, hash);
    proof {
        assert(combined@ =~= scramble@ + hash@);
    }
    sha1::digest(combined.as_slice())
}

/// Compute the auth-response a client sends for a password and a scramble. An
/// empty or absent password yields an empty response.
pub fn compute_auth_response(password: Option<&[u8]>, scramble: &[u8]) -> (r: Vec<u8>)
    ensures
        r@ == response(
            match password {
                Some(p) => Some(p@),
                None => None,
            },
            scramble@,
        ),
{
    match password {
        Some(p) => {
            if p.len() == 0 {
                return Vec::new();
            }
            let stage1: [u8; 20] = sha1::digest(p);
            let stage2: [u8; 20] = sha1::digest(stage1.as_slice());
            let hidden: [u8; 20] = mask_bytes(scramble, stage2.as_slice());
            xor_bytes(stage1.as_slice(), hidden.as_slice())
        },
        None => Vec::new(),
    }
}

/// Verify a client's auth-response against the stored password hash and the
/// scramble that was sent.
pub fn verify(auth_response: &[u8], scramble: &[u8], stored_hash: Option<&[u8; 20]>) -> (r: bool)
    ensures
        r == verifies(
            auth_response@,
            scramble@,
            match stored_hash {
                Some(h) => Some(h@),
                None => None,
            },
        ),
{
    match stored_hash {
        None => auth_response.len() == 0,
        Some(hash) => {
            if auth_response.len() != 20 {
                return false;
            }
            let hidden: [u8; 20] = mask_bytes(scramble, hash.as_slice());
            let stage1 = xor_bytes(auth_response, hidden.as_slice());
            let stage2: [u8; 20] = sha1::digest(stage1.as_slice());
            constant_time_eq(stage2.as_slice(), hash.as_slice())
        },
    }
}

} // verus!
