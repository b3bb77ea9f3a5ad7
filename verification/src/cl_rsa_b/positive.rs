use vstd::prelude::*;

use crate::accumulator::{Accumulator, Positive};
use crate::bignum::BigNumber;
use crate::modarith::is_unit;
use super::accumulator::{CLRSABAccumulator, mem_verifies};
use super::witness::{CLRSABWitness, witness_u};

verus! {

impl Positive for CLRSABAccumulator {
    /// A witness must be given; with a negative element its value must be
    /// invertible modulo `n` (or zero).
    open spec fn verify_mem_ok(&self, item: &BigNumber, witness: Option<&CLRSABWitness>) -> bool {
        &&& witness is Some
        &&& item@ < 0 && witness_u(witness.unwrap()) != 0 ==> is_unit(
            witness_u(witness.unwrap()),
            self.n(),
        )
    }

    /// Checks `u^item == value (mod n)`.
    fn verify_mem(&self, item: &BigNumber, witness: Option<&CLRSABWitness>) -> (r: bool)
        ensures
            r == mem_verifies(self.n(), self.v(), item@, witness_u(witness.unwrap())),
    {
        match witness.unwrap() {
            CLRSABWitness::Membership { u } => u.modpow(item, self.modulus()).equals(self.value()),
        }
    }
}

} // verus!
