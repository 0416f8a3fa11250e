use std::hash::Hasher;
use vstd::prelude::*;
use wyhash::WyHash;

verus! {

/// The 64-bit wyhash digest of the keyed message `key ++ message ++ round ++ key`.
/// The digest is a function of those bytes alone; nothing else is assumed of it.
pub uninterp spec fn wyhash_keyed(key: Seq<u8>, message: Seq<u8>, round: Seq<u8>) -> u64;

/// Relies on wyhash::WyHash (through std::hash::Hasher): the digest is a
/// deterministic function of the byte stream written to the hasher, here the
/// key bytes, the message bytes, the round bytes, and the key bytes again.
#[verifier::external_body]
pub(crate) fn wyhash_keyed_digest(key: &[u8; 32], message: &[u8; 8], round: &[u8; 1]) -> (r: u64)
    ensures
        r == wyhash_keyed(key@, message@, round@),
{
    let mut hasher = WyHash::default();
    hasher.write(&key[..]);
    hasher.write(&message[..]);
    hasher.write(&round[..]);
    hasher.write(&key[..]);
    hasher.finish()
}

/// Relies on rand::random: 32 bytes drawn from the thread-local cryptographically
/// secure generator. Nothing is promised of the value.
#[verifier::external_body]
pub(crate) fn random_key_bytes() -> (r: [u8; 32]) {
    rand::random::<[u8; 32]>()
}

} // verus!
