use vstd::prelude::*;
use vstd::arithmetic::power::pow;
use vstd::arithmetic::power2::pow2;
use vstd::arithmetic::div_mod::*;

use crate::accumulator::Accumulator;
use crate::bignum::{BigNumber, bezout_coefficients};
use crate::modarith::{spec_gcd, abs, is_unit, inv_mod, mod_pow, modpow_value, lemma_unit_nonzero, lemma_inv_mod, lemma_inverse_unique};
use super::helpers::{generate_quadratic_residue, generate_rsa_primes};
use super::update::CLRSABUpdate;
use super::witness::{CLRSABWitness, witness_u};
use super::P_SIZE;

verus! {

/// The values of a sequence of numbers.
pub open spec fn vals(s: Seq<BigNumber>) -> Seq<int> {
    s.map_values(|b: BigNumber| b@)
}

/// The values of a sequence of borrowed numbers.
pub open spec fn ref_vals(s: Seq<&BigNumber>) -> Seq<int> {
    s.map_values(|b: &BigNumber| b@)
}

/// `s` without any occurrence of `v`.
pub open spec fn remove_value(s: Seq<int>, v: int) -> Seq<int>
    decreases s.len(),
{
    if s.len() == 0 {
        s
    } else {
        let r = remove_value(s.drop_last(), v);
        if s.last() == v {
            r
        } else {
            r.push(s.last())
        }
    }
}

/// `s` without any occurrence of a value of `vs`.
pub open spec fn remove_values(s: Seq<int>, vs: Seq<int>) -> Seq<int>
    decreases s.len(),
{
    if s.len() == 0 {
        s
    } else {
        let r = remove_values(s.drop_last(), vs);
        if vs.contains(s.last()) {
            r
        } else {
            r.push(s.last())
        }
    }
}

/// Product of the values, left to right.
pub open spec fn prod(s: Seq<int>) -> int
    decreases s.len(),
{
    if s.len() == 0 {
        1
    } else {
        prod(s.drop_last()) * s.last()
    }
}

/// Product of the values modulo `m`, reduced after each factor.
pub open spec fn prod_mod(s: Seq<int>, m: int) -> int
    decreases s.len(),
{
    if s.len() == 0 {
        1
    } else {
        (prod_mod(s.drop_last(), m) * s.last()) % m
    }
}

/// The `x`-th root of `v` modulo `n`, taken with the trapdoor `phi`:
/// `v` raised to the inverse of `x` modulo `phi`.  This is both the
/// membership witness of `x` and the accumulator value after removing `x`.
pub open spec fn value_root(n: int, v: int, x: int, phi: int) -> int {
    mod_pow(v, inv_mod(x, phi), n)
}

/// The witness `u` proves that `x` is accumulated in the value `v`:
/// `u^x == v (mod n)`.
pub open spec fn mem_verifies(n: int, v: int, x: int, u: int) -> bool {
    modpow_value(u, x, n) == v
}

/// The holder's new witness after the removal of `removed`, for the holder
/// of `x` with witness `u`, when the accumulator's new value is `v_new`:
/// `u^b * v_new^a` for the Bézout coefficients `a * x + b * removed == 1`.
pub open spec fn removal_update_value(n: int, v_new: int, x: int, removed: int, u: int) -> int {
    let (a, b) = bezout_coefficients(x, removed);
    (modpow_value(u, b, n) * modpow_value(v_new, a, n)) % n
}

/// An RSA based cryptographic accumulator.
///
/// Defined in [BCD+17], it modifies the RSA accumulator to support static
/// updates: the membership witnesses of accumulated elements don't have to be
/// updated when new elements are inserted, only when elements are removed.
///
/// [BCD+17]: https://doi.org/10.1109/EuroSP.2017.13
#[derive(Debug, Eq)]
pub struct CLRSABAccumulator {
    modulus: BigNumber,
    value: BigNumber,
}

impl CLRSABAccumulator {
    /// The modulus exceeds one and the value is reduced modulo it.
    #[verifier::type_invariant]
    closed spec fn wf(self) -> bool {
        &&& self.modulus@ > 1
        &&& 0 <= self.value@ < self.modulus@
    }

    /// The RSA modulus `n`.
    pub closed spec fn n(&self) -> int {
        self.modulus@
    }

    /// The accumulator value.
    pub closed spec fn v(&self) -> int {
        self.value@
    }

    /// The RSA modulus.
    pub fn modulus(&self) -> (r: &BigNumber)
        ensures
            r@ == self.n(),
            r@ > 1,
    {
        proof {
            use_type_invariant(self);
        }
        &self.modulus
    }

    /// The accumulator value.
    pub fn value(&self) -> (r: &BigNumber)
        ensures
            r@ == self.v(),
            0 <= r@ < self.n(),
    {
        proof {
            use_type_invariant(self);
        }
        &self.value
    }

    /// A fresh accumulator over the modulus `p * q`, with a random quadratic
    /// residue as its value, and the trapdoor `(p - 1) * (q - 1)`.
    pub fn with_primes(p: &BigNumber, q: &BigNumber) -> (r: (CLRSABAccumulator, Option<BigNumber>))
        requires
            p@ >= 2,
            q@ >= 2,
        ensures
            r.0.n() == p@ * q@,
            r.1 matches Some(phi) && phi@ == (p@ - 1) * (q@ - 1),
            exists|s: int| 0 <= s < p@ * q@ && r.0.v() == pow(s, 2) % (p@ * q@),
    {
        let one = BigNumber::one();
        let modulus = p.times(q);
        let phi = p.minus(&one).times(&q.minus(&one));
        assert(p@ * q@ > 1) by (nonlinear_arith)
            requires
                p@ >= 2,
                q@ >= 2,
        ;
        let value = generate_quadratic_residue(&modulus);
        (CLRSABAccumulator { modulus, value }, Some(phi))
    }

    /// `value` raised to the inverse of `item` modulo the trapdoor `phi`.
    fn root_of_value(&self, item: &BigNumber, phi: &BigNumber) -> (r: BigNumber)
        requires
            is_unit(item@, phi@),
        ensures
            r@ == value_root(self.n(), self.v(), item@, phi@),
            0 <= r@ < self.n(),
    {
        proof {
            use_type_invariant(self);
            lemma_unit_nonzero(item@, phi@);
            lemma_inv_mod(item@, phi@);
        }
        let inv = item.invert(phi).unwrap();
        proof {
            lemma_inverse_unique(item@, inv@, inv_mod(item@, phi@), phi@);
        }
        self.value.modpow(&inv, &self.modulus)
    }

    /// Replaces the value by its `item`-th root.
    pub(crate) fn take_root(&mut self, item: &BigNumber, phi: &BigNumber)
        requires
            is_unit(item@, phi@),
        ensures
            final(self).n() == old(self).n(),
            final(self).v() == value_root(old(self).n(), old(self).v(), item@, phi@),
    {
        proof {
            use_type_invariant(&*self);
        }
        let r = self.root_of_value(item, phi);
        self.value = r;
    }
}

impl Clone for CLRSABAccumulator {
    fn clone(&self) -> (r: Self)
        ensures
            r.n() == self.n(),
            r.v() == self.v(),
    {
        proof {
            use_type_invariant(self);
        }
        CLRSABAccumulator { modulus: self.modulus.copy(), value: self.value.copy() }
    }
}

impl PartialEq for CLRSABAccumulator {
    fn eq(&self, other: &Self) -> (r: bool) {
        self.modulus.equals(&other.modulus) && self.value.equals(&other.value)
    }
}

impl vstd::std_specs::cmp::PartialEqSpecImpl for CLRSABAccumulator {
    open spec fn obeys_eq_spec() -> bool {
        true
    }

    open spec fn eq_spec(&self, other: &Self) -> bool {
        self.n() == other.n() && self.v() == other.v()
    }
}

/// A copy of every number of `v`.
pub(crate) fn copy_all(v: &Vec<BigNumber>) -> (r: Vec<BigNumber>)
    ensures
        vals(r@) == vals(v@),
{
    let mut r: Vec<BigNumber> = Vec::new();
    let n = v.len();
    for i in 0..n
        invariant
            n == v.len(),
            vals(r@) == vals(v@).take(i as int),
    {
        let ghost r0 = r@;
        r.push(v[i].copy());
        assert(vals(r@) =~= vals(r0).push(v@[i as int]@));
        assert(vals(v@).take(i + 1) =~= vals(v@).take(i as int).push(v@[i as int]@));
    }
    assert(vals(v@).take(n as int) == vals(v@));
    r
}

/// Appends a copy of every number of `items` to `v`.
pub(crate) fn extend_copies(v: &mut Vec<BigNumber>, items: &Vec<&BigNumber>)
    ensures
        vals(final(v)@) == vals(old(v)@) + ref_vals(items@),
{
    let n = items.len();
    for i in 0..n
        invariant
            n == items.len(),
            vals(v@) == vals(old(v)@) + ref_vals(items@).take(i as int),
    {
        let ghost v0 = v@;
        v.push(items[i].copy());
        assert(vals(v@) =~= vals(v0).push(items@[i as int]@));
        assert(ref_vals(items@).take(i + 1) =~= ref_vals(items@).take(i as int).push(
            items@[i as int]@,
        ));
    }
    assert(ref_vals(items@).take(n as int) == ref_vals(items@));
}

/// Drops every number equal to `item` from `v`.
pub(crate) fn retain_other(v: &mut Vec<BigNumber>, item: &BigNumber)
    ensures
        vals(final(v)@) == remove_value(vals(old(v)@), item@),
{
    let mut kept: Vec<BigNumber> = Vec::new();
    let n = v.len();
    for i in 0..n
        invariant
            n == v.len(),
            vals(kept@) == remove_value(vals(v@).take(i as int), item@),
    {
        assert(vals(v@).take(i + 1).drop_last() == vals(v@).take(i as int));
        if !v[i].equals(item) {
            kept.push(v[i].copy());
        }
        assert(vals(kept@) == remove_value(vals(v@).take(i + 1), item@));
    }
    assert(vals(v@).take(n as int) == vals(v@));
    *v = kept;
}

/// Whether a number equal to `x` occurs in `items`.
pub(crate) fn contains_value(items: &Vec<&BigNumber>, x: &BigNumber) -> (r: bool)
    ensures
        r == ref_vals(items@).contains(x@),
{
    let n = items.len();
    for i in 0..n
        invariant
            n == items.len(),
            forall|j: int| 0 <= j < i ==> ref_vals(items@)[j] != x@,
    {
        if items[i].equals(x) {
            assert(ref_vals(items@)[i as int] == x@);
            return true;
        }
    }
    false
}

/// Drops every number that equals one of `items` from `v`.
pub(crate) fn retain_others(v: &mut Vec<BigNumber>, items: &Vec<&BigNumber>)
    ensures
        vals(final(v)@) == remove_values(vals(old(v)@), ref_vals(items@)),
{
    let mut kept: Vec<BigNumber> = Vec::new();
    let n = v.len();
    for i in 0..n
        invariant
            n == v.len(),
            vals(kept@) == remove_values(vals(v@).take(i as int), ref_vals(items@)),
    {
        assert(vals(v@).take(i + 1).drop_last() == vals(v@).take(i as int));
        if !contains_value(items, &v[i]) {
            kept.push(v[i].copy());
        }
        assert(vals(kept@) == remove_values(vals(v@).take(i + 1), ref_vals(items@)));
    }
    assert(vals(v@).take(n as int) == vals(v@));
    *v = kept;
}

impl Accumulator for CLRSABAccumulator {
    type Element = BigNumber;
    type Trapdoor = BigNumber;
    type Witness = CLRSABWitness;
    type Update = CLRSABUpdate;

    /// A removal update needs the holder's element, and the witness and the
    /// accumulator value must be invertible modulo `n` (or zero).
    open spec fn update_ok(
        &self,
        witness: &CLRSABWitness,
        item: Option<&BigNumber>,
        update: &CLRSABUpdate,
    ) -> bool {
        match update {
            CLRSABUpdate::Insertion => true,
            CLRSABUpdate::Removal { .. } => {
                &&& item is Some
                &&& witness_u(witness) != 0 ==> is_unit(witness_u(witness), self.n())
                &&& self.v() != 0 ==> is_unit(self.v(), self.n())
            },
        }
    }

    /// A fresh accumulator: the modulus is the product of two numbers of at
    /// least `P_SIZE` bits, the trapdoor is `(p - 1) * (q - 1)` and the value
    /// is a random quadratic residue.  The elements are not used.
    open spec fn fresh(r: (CLRSABAccumulator, Option<BigNumber>), items: Seq<BigNumber>) -> bool {
        exists|p: int, q: int|
            #![trigger p * q]
            p >= pow2((P_SIZE - 1) as nat) && q >= pow2((P_SIZE - 1) as nat) && r.0.n() == p * q
                && (r.1 matches Some(phi) && phi@ == (p - 1) * (q - 1)) && exists|s: int|
                0 <= s < p * q && r.0.v() == pow(s, 2) % (p * q)
    }

    /// Witnesses are computed with the trapdoor, for elements invertible
    /// modulo it.
    open spec fn witness_mem_ok(&self, item: &BigNumber, aux: Option<&BigNumber>) -> bool {
        aux matches Some(phi) && is_unit(item@, phi@)
    }

    /// The CL-RSA-B accumulator has no non-membership witnesses.
    open spec fn witness_nonmem_ok(&self, item: &BigNumber, aux: Option<&BigNumber>) -> bool {
        false
    }

    /// A fresh accumulator over the product of two random safe primes of
    /// `P_SIZE` bits; the elements are not used.
    fn new_with_elements(_items: &[BigNumber]) -> (r: (CLRSABAccumulator, Option<BigNumber>))
        ensures
            exists|p: int, q: int|
                #![trigger p * q]
                p >= pow2((P_SIZE - 1) as nat) && q >= pow2((P_SIZE - 1) as nat) && r.0.n()
                    == p * q && (r.1 matches Some(phi) && phi@ == (p - 1) * (q - 1)) && exists|
                    s: int,
                | 0 <= s < p * q && r.0.v() == pow(s, 2) % (p * q),
    {
        let (p, q) = generate_rsa_primes();
        proof {
            vstd::arithmetic::power2::lemma_pow2_pos((P_SIZE - 1) as nat);
            vstd::arithmetic::power2::lemma_pow2_unfold((P_SIZE - 1) as nat);
        }
        Self::with_primes(&p, &q)
    }

    /// After an insertion the witness stays as it is; after a removal it is
    /// recombined with the new value through the Bézout coefficients of the
    /// holder's element and the removed one.
    fn update(
        &self,
        witness: &CLRSABWitness,
        item: Option<&BigNumber>,
        update: &CLRSABUpdate,
    ) -> (r: CLRSABWitness)
        ensures
            update matches CLRSABUpdate::Insertion ==> witness_u(&r) == witness_u(witness),
            update matches CLRSABUpdate::Removal { x } ==> witness_u(&r) == removal_update_value(
                self.n(),
                self.v(),
                item.unwrap()@,
                x@,
                witness_u(witness),
            ),
            update matches CLRSABUpdate::Removal { x } ==> ({
                let (a, b) = bezout_coefficients(item.unwrap()@, x@);
                a * item.unwrap()@ + b * x@ == spec_gcd(
                    abs(item.unwrap()@) as nat,
                    abs(x@) as nat,
                )
            }),
    {
        proof {
            use_type_invariant(self);
        }
        match witness {
            CLRSABWitness::Membership { u } => match update {
                CLRSABUpdate::Insertion => CLRSABWitness::Membership { u: u.copy() },
                CLRSABUpdate::Removal { x: xtilde } => {
                    let x = item.unwrap();
                    let g = x.extended_gcd(xtilde);
                    let a = g.x;
                    let b = g.y;
                    let ub = u.modpow(&b, &self.modulus);
                    let va = self.value.modpow(&a, &self.modulus);
                    CLRSABWitness::Membership { u: ub.modmul(&va, &self.modulus) }
                },
            },
        }
    }

    /// The membership witness of `item`: the value raised to the inverse of
    /// `item` modulo the trapdoor.
    fn witness_mem(
        &self,
        item: &BigNumber,
        aux: Option<&BigNumber>,
        all_elements: &[BigNumber],
    ) -> (r: CLRSABWitness)
        ensures
            witness_u(&r) == value_root(self.n(), self.v(), item@, aux.unwrap()@),
            0 <= witness_u(&r) < self.n(),
    {
        let phi = aux.unwrap();
        CLRSABWitness::Membership { u: self.root_of_value(item, phi) }
    }

    /// Not supported: no input is accepted.
    fn witness_nonmem(
        &self,
        _item: &BigNumber,
        _aux: Option<&BigNumber>,
        _all_elements: &[BigNumber],
    ) -> CLRSABWitness {
        CLRSABWitness::Membership { u: BigNumber::zero() }
    }
}

} // verus!
