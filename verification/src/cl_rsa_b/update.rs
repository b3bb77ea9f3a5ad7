use vstd::prelude::*;
use crate::bignum::BigNumber;

verus! {

/// What the issuer publishes after changing a CL-RSA-B accumulator.
#[derive(Debug)]
pub enum CLRSABUpdate {
    /// An element was inserted: witnesses stay as they are.
    Insertion,
    /// The element `x` (or the product of a batch) was removed.
    Removal { x: BigNumber },
}

} // verus!
