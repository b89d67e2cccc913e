//! The hashing capability: a keyed, deterministic 64-bit digest.
//!
//! Values are digested with SipHash-1-3 under a 128-bit key.  The digest
//! itself is an outside computation; everything downstream of it works on
//! the plain `u64` hash and is verified.

use vstd::prelude::*;
use std::collections::hash_map::RandomState;
use std::hash::{BuildHasher, Hash, Hasher};

verus! {

/// A cloneable hashing capability. Two hashers with the same key produce
/// the same digest for the same value, on every platform.
#[derive(Clone, Copy, Debug)]
pub struct DefaultHasher {
    key: [u8; 16],
}

impl DefaultHasher {
    /// The 128-bit key this hasher was built with.
    pub closed spec fn key_view(&self) -> Seq<u8> {
        self.key@
    }

    /// Returns a hasher seeded with `key`: reproducible across runs.
    pub fn seeded(key: &[u8; 16]) -> (r: Self)
        ensures
            r.key_view() == key@,
    {
        DefaultHasher { key: *key }
    }

    /// Returns a hasher with a key drawn from process entropy.
    pub fn random() -> (r: Self) {
        DefaultHasher { key: random_key() }
    }

    /// The key itself, for persisting the configuration.
    pub fn key(&self) -> (r: [u8; 16])
        ensures
            r@ == self.key_view(),
    {
        self.key
    }

    /// Digests `value` into 64 bits under this hasher's key.
    pub fn hash_one<T: Hash + ?Sized>(&self, value: &T) -> u64 {
        sip13_digest(&self.key, value)
    }
}

/// Big-endian byte expansion of a 128-bit seed.
pub fn seed_bytes(seed: u128) -> (r: [u8; 16])
    ensures
        r@.len() == 16,
        r@[0] == (seed >> 120u128) as u8,
        r@[1] == (seed >> 112u128) as u8,
        r@[2] == (seed >> 104u128) as u8,
        r@[3] == (seed >> 96u128) as u8,
        r@[4] == (seed >> 88u128) as u8,
        r@[5] == (seed >> 80u128) as u8,
        r@[6] == (seed >> 72u128) as u8,
        r@[7] == (seed >> 64u128) as u8,
        r@[8] == (seed >> 56u128) as u8,
        r@[9] == (seed >> 48u128) as u8,
        r@[10] == (seed >> 40u128) as u8,
        r@[11] == (seed >> 32u128) as u8,
        r@[12] == (seed >> 24u128) as u8,
        r@[13] == (seed >> 16u128) as u8,
        r@[14] == (seed >> 8u128) as u8,
        r@[15] == seed as u8,
{
    [
        #[verifier::truncate] ((seed >> 120u128) as u8),
        #[verifier::truncate] ((seed >> 112u128) as u8),
        #[verifier::truncate] ((seed >> 104u128) as u8),
        #[verifier::truncate] ((seed >> 96u128) as u8),
        #[verifier::truncate] ((seed >> 88u128) as u8),
        #[verifier::truncate] ((seed >> 80u128) as u8),
        #[verifier::truncate] ((seed >> 72u128) as u8),
        #[verifier::truncate] ((seed >> 64u128) as u8),
        #[verifier::truncate] ((seed >> 56u128) as u8),
        #[verifier::truncate] ((seed >> 48u128) as u8),
        #[verifier::truncate] ((seed >> 40u128) as u8),
        #[verifier::truncate] ((seed >> 32u128) as u8),
        #[verifier::truncate] ((seed >> 24u128) as u8),
        #[verifier::truncate] ((seed >> 16u128) as u8),
        #[verifier::truncate] ((seed >> 8u128) as u8),
        #[verifier::truncate] (seed as u8),
    ]
}

/// Relies on siphasher's `SipHasher13::new_with_key` together with its
/// `Hasher` impl (`write` via `Hash::hash`, then `finish`): the one-shot
/// keyed SipHash-1-3 digest of `value`. The digest depends only on the key
/// and the value's hashed bytes; nothing is assumed of it here.
#[verifier::external_body]
fn sip13_digest<T: Hash + ?Sized>(key: &[u8; 16], value: &T) -> u64 {
    let mut hasher = siphasher::sip::SipHasher13::new_with_key(key);
    value.hash(&mut hasher);
    hasher.finish()
}

/// Relies on `std::collections::hash_map::RandomState` (`new`,
/// `build_hasher`, `finish`) as an entropy source for a fresh key; nothing
/// is assumed of the result.
#[verifier::external_body]
fn random_key() -> [u8; 16] {
    let a = RandomState::new().build_hasher().finish();
    let b = RandomState::new().build_hasher().finish();
    let mut key = [0u8; 16];
    key[..8].copy_from_slice(&a.to_le_bytes());
    key[8..].copy_from_slice(&b.to_le_bytes());
    key
}

} // verus!
