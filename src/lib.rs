//! Verification of RPO Falcon512 signatures: field and ring arithmetic, the
//! public-key and signature codecs, hash-to-point and the verification predicate.
use vstd::prelude::*;

pub mod field;
pub mod poly;
pub mod codec;
pub mod hash;
pub mod ntt;
pub mod ring_laws;
pub mod signature;

pub use hash::{decode_nonce, hash_to_point};
pub use signature::Signature;

verus! {

/// Degree of the irreducible polynomial x^N + 1.
pub const N: usize = 512;

/// The Falcon modulus q.
pub const MODULUS: u32 = 12289;

} // verus!
