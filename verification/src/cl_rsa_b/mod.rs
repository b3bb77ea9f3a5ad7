//! The CL-RSA-B accumulator of [BCD+17]: an RSA accumulator whose membership
//! witnesses stay valid when elements are inserted and are updated only when
//! elements are removed.
//!
//! [BCD+17]: https://doi.org/10.1109/EuroSP.2017.13
pub mod helpers;

pub mod accumulator;
pub mod additive;
pub mod hash;
pub mod laws;
pub mod positive;
pub mod mem_proof;
pub mod subtractive;
pub mod update;
pub mod witness;
pub mod zk_positive;

use vstd::prelude::*;

verus! {

/// Bit length of each of the two RSA primes.
pub const P_SIZE: usize = 1536;

/// Bit length of the primes that elements are hashed to.
pub const H2P_SIZE: usize = 256;

/// Bit length of the Fiat-Shamir challenge.
pub const CHALLENGE_SIZE: usize = 256;

/// Bit length of the statistical hiding margin of the proof.
pub const NONCE_SIZE: usize = 80;

} // verus!
