//! Benchmark parameters, shared by the server-side and the mobile benchmarks.
use vstd::prelude::*;

verus! {

/// Batch sizes for the Add phase (new members per epoch).
pub const ADD_BATCH: [usize; 5] = [1, 1 << 10, 1 << 12, 1 << 14, 1 << 16];

/// Batch sizes for Revocation and Holder Update (deletions per epoch).
pub const DEL_BATCH: [usize; 5] = [1, 1 << 3, 1 << 6, 1 << 9, 1 << 12];

/// Number of attributes in the server-signed gap attestation (BBS-2023 / ECDSA):
/// lower_id, upper_id, expiry_ts.
pub const BBS_ATTR_COUNT: u32 = 3;

/// Number of attributes in the holder's BBS-2023 revocation credential: the
/// three gap attributes and `rev_handle`, the holder's integer identifier, so
/// that the range proof can bind the holder's position within a gap without
/// revealing it.
pub const BBS_CRED_ATTR_COUNT: u32 = 4;

/// Dummy expiry timestamp used in gap signatures during benchmarks.
pub const EXPIRY_TS: u64 = 1_900_000_000;

/// Number of gaps already present in the signed-pair list before the current
/// epoch's `k` revocations are applied.  List-based schemes (BBS+BPP, ECDSA)
/// re-sign the whole list each epoch, `LIST_BASE_SIZE + k + 1` gaps, whereas
/// accumulator schemes publish a message proportional to `k` only.
pub const LIST_BASE_SIZE: usize = 100_000;

} // verus!
