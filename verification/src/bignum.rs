//! Arbitrary-precision signed integers.
//!
//! A [`BigNumber`] holds its value in sign–magnitude form: a sign flag and the
//! minimal big-endian encoding of the magnitude, exactly the bytes that
//! `unknown_order::BigNumber::to_bytes` produces.  Every arithmetic operation is
//! carried out by `unknown_order` (OpenSSL backend); the functions below convert
//! to and from its number type around each call, and their contracts state the
//! mathematical result over the integer view `x@`.
use vstd::prelude::*;
use vstd::arithmetic::power2::pow2;
use unknown_order::BigNumber as Big;

use crate::modarith::{is_unit, modpow_value, spec_gcd, is_prime_spec, abs};

verus! {

/// Value of a big-endian byte string.
pub open spec fn be_nat(s: Seq<u8>) -> nat
    decreases s.len(),
{
    if s.len() == 0 {
        0
    } else {
        be_nat(s.drop_last()) * 256 + s.last() as nat
    }
}

/// A big-endian string of `k` bytes is below `2^(8k)`.
pub proof fn lemma_be_nat_bound(s: Seq<u8>)
    ensures
        be_nat(s) < pow2(8 * s.len()),
    decreases s.len(),
{
    vstd::arithmetic::power2::lemma2_to64();
    if s.len() > 0 {
        let t = s.drop_last();
        lemma_be_nat_bound(t);
        let k = t.len();
        vstd::arithmetic::power2::lemma_pow2_adds(8 * k, 8);
        assert(8 * s.len() == 8 * k + 8);
        let b = be_nat(t);
        let l = s.last() as nat;
        assert(b * 256 + l < pow2(8 * k) * 256) by (nonlinear_arith)
            requires
                b < pow2(8 * k),
                l < 256,
        ;
    }
}

/// The leading `m` bytes weigh `2^(8 * (len - m))` each.
pub proof fn lemma_be_nat_prefix(s: Seq<u8>, m: nat)
    requires
        m <= s.len(),
    ensures
        be_nat(s) >= be_nat(s.take(m as int)) * pow2(8 * (s.len() - m) as nat),
    decreases s.len(),
{
    vstd::arithmetic::power2::lemma2_to64();
    if m == s.len() {
        assert(s.take(m as int) == s);
        assert(pow2(8 * (s.len() - m) as nat) == 1);
        assert(be_nat(s) * 1 == be_nat(s));
    } else {
        let t = s.drop_last();
        lemma_be_nat_prefix(t, m);
        assert(t.take(m as int) == s.take(m as int));
        let e = 8 * (t.len() - m) as nat;
        vstd::arithmetic::power2::lemma_pow2_adds(e, 8);
        assert(8 * (s.len() - m) as nat == e + 8);
        let a = be_nat(s.take(m as int));
        let b = be_nat(t);
        let l = s.last() as nat;
        assert(b * 256 + l >= a * (pow2(e) * 256)) by (nonlinear_arith)
            requires
                b >= a * pow2(e),
                l >= 0,
        ;
        assert(be_nat(s) == b * 256 + l);
        assert(pow2(8 * (s.len() - m) as nat) == pow2(e) * 256);
    }
}

/// The last byte of a non-empty string is at most its value, and has the
/// value's parity.
pub proof fn lemma_be_nat_last(s: Seq<u8>)
    requires
        s.len() > 0,
    ensures
        be_nat(s) >= s.last(),
        be_nat(s) % 2 == s.last() % 2,
{
    let b = be_nat(s.drop_last()) as int;
    let l = s.last() as int;
    vstd::arithmetic::div_mod::lemma_mod_multiples_vanish(b * 128, l, 2);
    assert(2 * (b * 128) + l == b * 256 + l);
}

/// The minimal big-endian encoding of `n` (empty for zero).
pub open spec fn canonical_bytes(n: nat) -> Seq<u8>
    decreases n,
{
    if n == 0 {
        Seq::empty()
    } else {
        canonical_bytes(n / 256).push((n % 256) as u8)
    }
}

/// The Bézout coefficients that `unknown_order`'s extended Euclidean
/// algorithm returns for `a` and `b`.
pub uninterp spec fn bezout_coefficients(a: int, b: int) -> (int, int);

/// A signed integer of unbounded size.
#[derive(Debug, Eq, Hash)]
pub struct BigNumber {
    neg: bool,
    mag: Vec<u8>,
}

/// Result of the extended Euclidean algorithm: `x * a + y * b == gcd`.
#[derive(Debug)]
pub struct GcdResult {
    pub gcd: BigNumber,
    pub x: BigNumber,
    pub y: BigNumber,
}

impl Clone for BigNumber {
    fn clone(&self) -> (r: Self)
        ensures
            r@ == self@,
    {
        self.copy()
    }
}

impl PartialEq for BigNumber {
    fn eq(&self, other: &Self) -> (r: bool) {
        self.equals(other)
    }
}

impl vstd::std_specs::cmp::PartialEqSpecImpl for BigNumber {
    open spec fn obeys_eq_spec() -> bool {
        true
    }

    open spec fn eq_spec(&self, other: &Self) -> bool {
        self@ == other@
    }
}

impl View for BigNumber {
    type V = int;

    closed spec fn view(&self) -> int {
        if self.neg {
            -(be_nat(self.mag@) as int)
        } else {
            be_nat(self.mag@) as int
        }
    }
}

impl BigNumber {
    /// The stored magnitude is the minimal encoding, and zero is never negative.
    #[verifier::type_invariant]
    closed spec fn wf(self) -> bool {
        &&& self.mag@ == canonical_bytes(be_nat(self.mag@))
        &&& self.neg ==> be_nat(self.mag@) > 0
    }

    /// The magnitude bytes, as `to_bytes` returns them: the minimal big-endian
    /// encoding of the absolute value.
    pub open spec fn bytes(&self) -> Seq<u8> {
        canonical_bytes(abs(self@) as nat)
    }

    /// Big-endian magnitude of the number; the sign is not included.
    pub fn to_bytes(&self) -> (r: Vec<u8>)
        ensures
            r@ == self.bytes(),
    {
        proof {
            use_type_invariant(self);
        }
        self.mag.clone()
    }

    /// A copy of the number.
    pub fn copy(&self) -> (r: BigNumber)
        ensures
            r@ == self@,
    {
        proof {
            use_type_invariant(self);
        }
        BigNumber { neg: self.neg, mag: self.mag.clone() }
    }

    /// `unknown_order::BigNumber::zero`.
    #[verifier::external_body]
    pub fn zero() -> (r: BigNumber)
        ensures
            r@ == 0,
    {
        BigNumber { neg: false, mag: Big::zero().to_bytes() }
    }

    /// `unknown_order::BigNumber::one`.
    #[verifier::external_body]
    pub fn one() -> (r: BigNumber)
        ensures
            r@ == 1,
    {
        BigNumber { neg: false, mag: Big::one().to_bytes() }
    }

    /// `unknown_order::BigNumber::from(u64)`.
    #[verifier::external_body]
    pub fn from_u64(v: u64) -> (r: BigNumber)
        ensures
            r@ == v,
    {
        BigNumber { neg: false, mag: Big::from(v).to_bytes() }
    }

    /// `unknown_order::BigNumber::from_slice`: the bytes read as an unsigned
    /// big-endian integer.
    #[verifier::external_body]
    pub fn from_slice(b: &[u8]) -> (r: BigNumber)
        ensures
            r@ == be_nat(b@),
    {
        BigNumber { neg: false, mag: Big::from_slice(b).to_bytes() }
    }

    /// `unknown_order::BigNumber::eq` (`==`).
    #[verifier::external_body]
    pub fn equals(&self, other: &BigNumber) -> (r: bool)
        ensures
            r == (self@ == other@),
    {
        let a = Big::from_slice(&self.mag);
        let a = if self.neg { -a } else { a };
        let b = Big::from_slice(&other.mag);
        let b = if other.neg { -b } else { b };
        a == b
    }

    /// `unknown_order::BigNumber::lt` (`<`).
    #[verifier::external_body]
    pub fn lt(&self, other: &BigNumber) -> (r: bool)
        ensures
            r == (self@ < other@),
    {
        let a = Big::from_slice(&self.mag);
        let a = if self.neg { -a } else { a };
        let b = Big::from_slice(&other.mag);
        let b = if other.neg { -b } else { b };
        a < b
    }

    /// `unknown_order::BigNumber::is_one`: it tests that the magnitude has
    /// one significant bit and bit 0 set, ignoring the sign, so it is also
    /// true for -1.
    #[verifier::external_body]
    pub fn is_one(&self) -> (r: bool)
        ensures
            r == (abs(self@) == 1),
    {
        let a = Big::from_slice(&self.mag);
        let a = if self.neg { -a } else { a };
        a.is_one()
    }

    /// `unknown_order::BigNumber::mul` (`*`).
    #[verifier::external_body]
    pub fn times(&self, other: &BigNumber) -> (r: BigNumber)
        ensures
            r@ == self@ * other@,
    {
        let a = Big::from_slice(&self.mag);
        let a = if self.neg { -a } else { a };
        let b = Big::from_slice(&other.mag);
        let b = if other.neg { -b } else { b };
        let c = a * b;
        BigNumber { neg: c < Big::zero(), mag: c.to_bytes() }
    }

    /// `unknown_order::BigNumber::sub` (`-`).
    #[verifier::external_body]
    pub fn minus(&self, other: &BigNumber) -> (r: BigNumber)
        ensures
            r@ == self@ - other@,
    {
        let a = Big::from_slice(&self.mag);
        let a = if self.neg { -a } else { a };
        let b = Big::from_slice(&other.mag);
        let b = if other.neg { -b } else { b };
        let c = a - b;
        BigNumber { neg: c < Big::zero(), mag: c.to_bytes() }
    }

    /// `unknown_order::BigNumber::neg` (unary `-`).
    #[verifier::external_body]
    pub fn negate(&self) -> (r: BigNumber)
        ensures
            r@ == -self@,
    {
        let a = Big::from_slice(&self.mag);
        let a = if self.neg { -a } else { a };
        let c = -a;
        BigNumber { neg: c < Big::zero(), mag: c.to_bytes() }
    }

    /// `unknown_order::BigNumber::shl` (`<<`): multiplication by `2^bits`.
    #[verifier::external_body]
    pub fn shl(&self, bits: usize) -> (r: BigNumber)
        requires
            bits <= i32::MAX,
        ensures
            r@ == self@ * pow2(bits as nat),
    {
        let a = Big::from_slice(&self.mag);
        let a = if self.neg { -a } else { a };
        let c = a << bits;
        BigNumber { neg: c < Big::zero(), mag: c.to_bytes() }
    }

    /// `unknown_order::BigNumber::shr` (`>>`): the magnitude shifted right, the
    /// sign kept.
    #[verifier::external_body]
    pub fn shr(&self, bits: usize) -> (r: BigNumber)
        requires
            bits <= i32::MAX,
        ensures
            self@ >= 0 ==> r@ == self@ / pow2(bits as nat) as int,
            self@ < 0 ==> r@ == -((-self@) / pow2(bits as nat) as int),
    {
        let a = Big::from_slice(&self.mag);
        let a = if self.neg { -a } else { a };
        let c = a >> bits;
        BigNumber { neg: c < Big::zero(), mag: c.to_bytes() }
    }

    /// `unknown_order::BigNumber::modmul`: `(self * rhs) mod n`, in `[0, n)`.
    #[verifier::external_body]
    pub fn modmul(&self, rhs: &BigNumber, n: &BigNumber) -> (r: BigNumber)
        requires
            n@ > 0,
        ensures
            r@ == (self@ * rhs@) % n@,
    {
        let a = Big::from_slice(&self.mag);
        let a = if self.neg { -a } else { a };
        let b = Big::from_slice(&rhs.mag);
        let b = if rhs.neg { -b } else { b };
        let c = a.modmul(&b, &Big::from_slice(&n.mag));
        BigNumber { neg: false, mag: c.to_bytes() }
    }

    /// `unknown_order::BigNumber::modpow`: `self^exponent mod n`, in `[0, n)`.
    /// A negative exponent raises the inverse of `self` modulo `n`; the
    /// inverse is computed by `invert`, which panics (an `unwrap` of
    /// OpenSSL's error) when it does not exist, and the result is zero when
    /// `self` is zero.
    #[verifier::external_body]
    pub fn modpow(&self, exponent: &BigNumber, n: &BigNumber) -> (r: BigNumber)
        requires
            n@ > 0,
            exponent@ < 0 && n@ > 1 && self@ != 0 ==> is_unit(self@, n@),
        ensures
            r@ == modpow_value(self@, exponent@, n@),
    {
        let a = Big::from_slice(&self.mag);
        let a = if self.neg { -a } else { a };
        let e = Big::from_slice(&exponent.mag);
        let e = if exponent.neg { -e } else { e };
        let c = a.modpow(&e, &Big::from_slice(&n.mag));
        BigNumber { neg: false, mag: c.to_bytes() }
    }

    /// `unknown_order::BigNumber::invert`: the inverse of `self` modulo
    /// `modulus`, `None` for a zero element or a modulus of one.  It panics
    /// (an `unwrap` of OpenSSL's error) when the inverse does not exist.
    #[verifier::external_body]
    pub fn invert(&self, modulus: &BigNumber) -> (r: Option<BigNumber>)
        requires
            modulus@ > 0,
            self@ != 0 && modulus@ > 1 ==> is_unit(self@, modulus@),
        ensures
            r is None <==> (self@ == 0 || modulus@ == 1),
            r matches Some(i) ==> 0 <= i@ < modulus@ && (self@ * i@) % modulus@ == 1,
    {
        let a = Big::from_slice(&self.mag);
        let a = if self.neg { -a } else { a };
        match a.invert(&Big::from_slice(&modulus.mag)) {
            Some(c) => Some(BigNumber { neg: false, mag: c.to_bytes() }),
            None => None,
        }
    }

    /// `unknown_order::BigNumber::extended_gcd`: the greatest common divisor
    /// and Bézout coefficients, `x * self + y * other == gcd`.
    #[verifier::external_body]
    pub fn extended_gcd(&self, other: &BigNumber) -> (r: GcdResult)
        ensures
            r.gcd@ == spec_gcd(abs(self@) as nat, abs(other@) as nat),
            r.x@ * self@ + r.y@ * other@ == r.gcd@,
            (r.x@, r.y@) == bezout_coefficients(self@, other@),
    {
        let a = Big::from_slice(&self.mag);
        let a = if self.neg { -a } else { a };
        let b = Big::from_slice(&other.mag);
        let b = if other.neg { -b } else { b };
        let g = a.extended_gcd(&b);
        let (zero, x, y) = (Big::zero(), g.x, g.y);
        GcdResult {
            gcd: BigNumber { neg: false, mag: g.gcd.to_bytes() },
            x: BigNumber { neg: x < zero, mag: x.to_bytes() },
            y: BigNumber { neg: y < zero, mag: y.to_bytes() },
        }
    }

    /// `unknown_order::BigNumber::is_prime` (OpenSSL's probabilistic test).
    /// A prime is always reported prime; a composite may rarely pass.
    #[verifier::external_body]
    pub fn is_prime(&self) -> (r: bool)
        ensures
            is_prime_spec(self@) ==> r,
    {
        let a = Big::from_slice(&self.mag);
        let a = if self.neg { -a } else { a };
        a.is_prime()
    }

    /// `unknown_order::BigNumber::prime`: a random probable prime of at least
    /// `bits` bits (the `openssl` crate documents `bits` as a lower bound).
    /// Only that size is stated of the drawn value.
    #[verifier::external_body]
    pub fn prime(bits: usize) -> (r: BigNumber)
        requires
            2 <= bits <= i32::MAX,
        ensures
            r@ >= pow2((bits - 1) as nat),
    {
        BigNumber { neg: false, mag: Big::prime(bits).to_bytes() }
    }

    /// `unknown_order::BigNumber::safe_prime`: a random probable safe prime of
    /// at least `bits` bits (the `openssl` crate documents `bits` as a lower
    /// bound).  Only that size is stated of the drawn value.
    #[verifier::external_body]
    pub fn safe_prime(bits: usize) -> (r: BigNumber)
        requires
            6 <= bits <= i32::MAX,
        ensures
            r@ >= pow2((bits - 1) as nat),
    {
        BigNumber { neg: false, mag: Big::safe_prime(bits).to_bytes() }
    }

    /// `unknown_order::BigNumber::random`: a random value in `[0, n)`.
    #[verifier::external_body]
    pub fn random(n: &BigNumber) -> (r: BigNumber)
        requires
            n@ > 0,
        ensures
            0 <= r@ < n@,
    {
        BigNumber { neg: false, mag: Big::random(&Big::from_slice(&n.mag)).to_bytes() }
    }

    /// `unknown_order::BigNumber::random_bits`: random bytes covering `bits`
    /// bits, with bit number `bits` then set.
    #[verifier::external_body]
    pub fn random_bits(bits: u32) -> (r: BigNumber)
        requires
            bits < i32::MAX,
        ensures
            pow2(bits as nat) <= r@ < pow2(bits as nat) + pow2(8 * ((bits as nat + 7) / 8)),
    {
        BigNumber { neg: false, mag: Big::random_bits(bits).to_bytes() }
    }

    /// `unknown_order::BigNumber::random_range`: a random value in
    /// `[lower, upper)`; it panics on an empty range.
    #[verifier::external_body]
    pub fn random_range(lower: &BigNumber, upper: &BigNumber) -> (r: BigNumber)
        requires
            lower@ < upper@,
        ensures
            lower@ <= r@ < upper@,
    {
        let a = Big::from_slice(&lower.mag);
        let a = if lower.neg { -a } else { a };
        let b = Big::from_slice(&upper.mag);
        let b = if upper.neg { -b } else { b };
        let c = Big::random_range(&a, &b);
        BigNumber { neg: c < Big::zero(), mag: c.to_bytes() }
    }

    /// Whether `self` is invertible modulo `m`, decided by the extended
    /// Euclidean algorithm: the greatest common divisor is one.
    pub fn is_invertible_mod(&self, m: &BigNumber) -> (r: bool)
        requires
            m@ > 1,
        ensures
            r ==> is_unit(self@, m@),
            r == (spec_gcd(abs(self@) as nat, abs(m@) as nat) == 1),
    {
        let g = self.extended_gcd(m);
        let r = g.gcd.is_one();
        if r {
            proof {
                let a = self@;
                let x = g.x@;
                let y = g.y@;
                let mm = m@;
                assert(x * a + y * mm == 1);
                assert((a * x) % mm == 1) by {
                    vstd::arithmetic::div_mod::lemma_mod_multiples_vanish(y, a * x, mm);
                    vstd::arithmetic::mul::lemma_mul_is_commutative(a, x);
                    vstd::arithmetic::mul::lemma_mul_is_commutative(y, mm);
                    vstd::arithmetic::div_mod::lemma_small_mod(1, mm as nat);
                }
            }
        }
        r
    }
}

} // verus!
