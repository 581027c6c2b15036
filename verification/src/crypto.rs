use vstd::prelude::*;

use crate::types::SecretSignKey;

verus! {

/// The SHA-512 digest of a byte string, as computed by sodiumoxide.  The
/// digest depends on the input bytes alone.
pub uninterp spec fn sha512_of(m: Seq<u8>) -> Seq<u8>;

/// The detached ed25519 signature of `m` under the 64-byte secret key `sk`.
/// ed25519 signing is deterministic: the signature depends on the key and
/// the message alone.
pub uninterp spec fn sig_of(sk: Seq<u8>, m: Seq<u8>) -> Seq<u8>;

/// Relies on sodiumoxide::init: prepares the library for use; the result
/// says whether initialisation succeeded.
#[verifier::external_body]
pub fn init_crypto() -> bool {
    sodiumoxide::init().is_ok()
}

/// Relies on sodiumoxide::crypto::hash::sha512::hash: returns the 64-byte
/// SHA-512 digest of the input.
#[verifier::external_body]
pub fn sha512(m: &Vec<u8>) -> (r: [u8; 64])
    ensures
        r@ == sha512_of(m@),
{
    sodiumoxide::crypto::hash::sha512::hash(m.as_slice()).0
}

/// Relies on sodiumoxide::crypto::sign::ed25519::gen_keypair: draws a fresh
/// random signing keypair; the public key has 32 bytes and the secret key 64.
#[verifier::external_body]
pub fn generate_sign_keypair() -> (r: (Vec<u8>, Vec<u8>))
    ensures
        r.0@.len() == 32,
        r.1@.len() == 64,
{
    let (pk, sk) = sodiumoxide::crypto::sign::ed25519::gen_keypair();
    (pk.0.to_vec(), sk.0.to_vec())
}

/// Relies on sodiumoxide::crypto::sign::ed25519::sign_detached: returns the
/// 64-byte detached signature of `m` under `sk`.
#[verifier::external_body]
pub fn sign_detached(m: &Vec<u8>, sk: &SecretSignKey) -> (r: Vec<u8>)
    requires
        sk.key@.len() == 64,
    ensures
        r@ == sig_of(sk.key@, m@),
        r@.len() == 64,
{
    let key = sodiumoxide::crypto::sign::ed25519::SecretKey::from_slice(&sk.key).unwrap();
    sodiumoxide::crypto::sign::ed25519::sign_detached(m.as_slice(), &key).to_bytes().to_vec()
}

/// Relies on rand::random: draws an arbitrary 32-bit value; nothing is
/// promised of it.
#[verifier::external_body]
pub fn random_u32() -> u32 {
    rand::random::<u32>()
}

} // verus!
