use vstd::prelude::*;
use vstd::arithmetic::power::pow;
use vstd::arithmetic::power2::pow2;
use crate::bignum::BigNumber;
use super::P_SIZE;

verus! {

/// Two random safe primes of at least `P_SIZE` bits, the factors of an RSA
/// modulus (only their size is stated).
pub fn generate_rsa_primes() -> (r: (BigNumber, BigNumber))
    ensures
        r.0@ >= pow2((P_SIZE - 1) as nat),
        r.1@ >= pow2((P_SIZE - 1) as nat),
{
    let p = BigNumber::safe_prime(P_SIZE);
    let q = BigNumber::safe_prime(P_SIZE);
    (p, q)
}

/// A random quadratic residue modulo `modulus`: the square of a random value
/// below the modulus.
pub fn generate_quadratic_residue(modulus: &BigNumber) -> (r: BigNumber)
    requires
        modulus@ > 0,
    ensures
        exists|s: int| 0 <= s < modulus@ && r@ == pow(s, 2) % modulus@,
        0 <= r@ < modulus@,
{
    let s = BigNumber::random(modulus);
    quadratic_residue_of(&s, modulus)
}

/// The quadratic residue `s^2 mod modulus`.
pub fn quadratic_residue_of(s: &BigNumber, modulus: &BigNumber) -> (r: BigNumber)
    requires
        modulus@ > 0,
    ensures
        r@ == pow(s@, 2) % modulus@,
        0 <= r@ < modulus@,
{
    let r = s.modpow(&BigNumber::from_u64(2), modulus);
    assert(r@ == pow(s@, 2) % modulus@);
    r
}

} // verus!
