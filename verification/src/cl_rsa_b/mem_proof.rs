use vstd::prelude::*;
use crate::bignum::BigNumber;

verus! {

/// The zero-knowledge membership proof of a CL-RSA-B accumulator.
#[derive(Debug)]
pub struct CLRSABMemProof {
    // Auxiliary commitments
    pub c_u: BigNumber,
    pub c_e: BigNumber,
    pub c_r: BigNumber,
    // t
    pub t_1: BigNumber,
    pub t_2: BigNumber,
    pub t_3: BigNumber,
    pub t_4: BigNumber,
    // s
    pub s_alpha: BigNumber,
    pub s_beta: BigNumber,
    pub s_delta: BigNumber,
    pub s_epsilon: BigNumber,
    pub s_zeta: BigNumber,
    pub s_eta: BigNumber,
}

/// The public parameters used in the proof: two quadratic residues modulo
/// the accumulator's modulus.
#[derive(Debug, Hash)]
pub struct CLRSABMemParams {
    pub g: BigNumber,
    pub h: BigNumber,
}

/// The random values that a prover draws for one proof.
#[derive(Debug)]
pub struct MemProofRandomness {
    pub r_1: BigNumber,
    pub r_2: BigNumber,
    pub r_3: BigNumber,
    pub r_alpha: BigNumber,
    pub r_beta: BigNumber,
    pub r_delta: BigNumber,
    pub r_epsilon: BigNumber,
    pub r_eta: BigNumber,
    pub r_zeta: BigNumber,
}

} // verus!
