use vstd::prelude::*;

use rand::SeedableRng;
use x25519_dalek::{PublicKey, StaticSecret};

use crate::bytes::copy_range;
use crate::handshake::PUBLIC_KEY_SIZE;

verus! {

/// Size of a peer identity.
pub const PEER_ID_SIZE: usize = 16;

/// The x25519 secret drawn from a `StdRng` seeded with `seed`.
pub uninterp spec fn seeded_secret(seed: Seq<u8>) -> Seq<u8>;

/// The x25519 public key of a secret key.
pub uninterp spec fn x25519_public_of(secret: Seq<u8>) -> Seq<u8>;

/// Relies on rand's `StdRng::from_seed` and x25519_dalek's `StaticSecret::new`:
/// a generator seeded with `seed` always yields the same 32 random bytes, which
/// the secret clamps.
#[verifier::external_body]
fn secret_from_seed(seed: [u8; 32]) -> (r: [u8; 32])
    ensures
        r@ == seeded_secret(seed@),
        r@[0] & 7 == 0,
        r@[31] & 128 == 0,
        r@[31] & 64 == 64,
{
    StaticSecret::new(rand::rngs::StdRng::from_seed(seed)).to_bytes()
}

/// Relies on x25519_dalek's `PublicKey::from(&StaticSecret)`: the public key
/// depends on the secret bytes alone.
#[verifier::external_body]
fn public_key_of(secret: [u8; 32]) -> (r: [u8; 32])
    ensures
        r@ == x25519_public_of(secret@),
{
    PublicKey::from(&StaticSecret::from(secret)).to_bytes()
}

/// The fixed seed of the fuzzing key pair.
pub open spec fn fuzzing_seed() -> Seq<u8> {
    Seq::new(32, |_i: int| 0u8)
}

/// A long-term x25519 key pair.
pub struct KeyPair {
    pub private_key: [u8; 32],
    pub public_key: [u8; 32],
}

/// Whether `k` is the key pair derived from the fuzzing seed.
pub open spec fn is_fuzzing_keypair(k: KeyPair) -> bool {
    k.private_key@ == seeded_secret(fuzzing_seed()) && k.public_key@ == x25519_public_of(k.private_key@)
}

/// The key pair shared by corpus generation and the fuzz entry points. It is
/// drawn from a fixed seed, so every run of the process gets the same one.
pub fn deterministic_keypair() -> (r: KeyPair)
    ensures
        is_fuzzing_keypair(r),
{
    let seed = [0u8; 32];
    assert(seed@ =~= fuzzing_seed());
    let private_key = secret_from_seed(seed);
    let public_key = public_key_of(private_key);
    KeyPair { private_key, public_key }
}

/// Any two fuzzing key pairs are the same key pair.
pub proof fn lemma_keypair_is_deterministic(a: KeyPair, b: KeyPair)
    requires
        is_fuzzing_keypair(a),
        is_fuzzing_keypair(b),
    ensures
        a.private_key@ == b.private_key@,
        a.public_key@ == b.public_key@,
{
}

/// The identity of the peer holding `public_key`: its last sixteen bytes.
pub fn peer_id_from_public_key(public_key: &[u8; 32]) -> (r: Vec<u8>)
    ensures
        r@ == public_key@.subrange((PUBLIC_KEY_SIZE - PEER_ID_SIZE) as int, PUBLIC_KEY_SIZE as int),
{
    copy_range(public_key, PUBLIC_KEY_SIZE - PEER_ID_SIZE, PUBLIC_KEY_SIZE)
}

} // verus!
