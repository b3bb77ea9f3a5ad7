use vstd::prelude::*;
use crate::bignum::BigNumber;

verus! {

/// The witness of a CL-RSA-B accumulator.
#[derive(Debug)]
pub enum CLRSABWitness {
    /// The witness for an element that has been accumulated.
    Membership { u: BigNumber },
}

/// The value `u` that a membership witness carries.
pub open spec fn witness_u(w: &CLRSABWitness) -> int {
    match w {
        CLRSABWitness::Membership { u } => u@,
    }
}

} // verus!
