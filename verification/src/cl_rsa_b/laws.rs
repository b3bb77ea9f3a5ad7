//! Laws of the CL-RSA-B accumulator, stated over the values that its
//! operations' contracts describe.
//!
//! They hold for an accumulator value `v` whose order modulo `n` divides the
//! trapdoor `phi` (`v^phi == 1 (mod n)`), which is what makes `phi` a trapdoor:
//! for an RSA modulus `n = p * q` and `phi = (p - 1) * (q - 1)` this is Euler's
//! theorem for every `v` coprime to `n` (`lemma_rsa_trapdoor`).
use vstd::prelude::*;
use vstd::arithmetic::power::*;
use vstd::arithmetic::power2::pow2;
use vstd::arithmetic::div_mod::*;
use vstd::arithmetic::mul::*;

use crate::fermat::lemma_rsa_euler;
use crate::modarith::{
    is_unit, inv_mod, mod_pow, modpow_value, lemma_inv_mod, lemma_unit_from_pow, lemma_unit_nonzero,
    lemma_mod_pow_unit, lemma_mod_pow_multiplies, lemma_mod_pow_adds, lemma_mod_pow_distributes,
    lemma_mod_pow_congruent, lemma_unit_mul, lemma_unit_mod, lemma_inverse_unique, is_prime_spec,
    lemma_unit_congruent,
};
use super::accumulator::{value_root, mem_verifies, prod, remove_value, remove_values, vals, CLRSABAccumulator};
use crate::accumulator::Subtractive;
use crate::bignum::BigNumber;
use super::subtractive::lemma_prod_unit;
use super::mem_proof::{CLRSABMemProof, MemProofRandomness};
use super::zk_positive::{honest_mem_proof, mem_proof_accepts, exp_ok, randomness_in_range, lemma_response_bound};
use super::{CHALLENGE_SIZE, H2P_SIZE, NONCE_SIZE};

verus! {

/// The order of `v` modulo `n` divides `phi`.
pub open spec fn order_divides(v: int, phi: int, n: int) -> bool {
    phi >= 1 && pow(v, phi as nat) % n == 1
}

/// The trapdoor of an RSA modulus: for distinct primes `p` and `q`, the order
/// of every unit modulo `p * q` divides `(p - 1) * (q - 1)`.
pub proof fn lemma_rsa_trapdoor(p: int, q: int, v: int)
    requires
        is_prime_spec(p),
        is_prime_spec(q),
        p != q,
        is_unit(v, p * q),
    ensures
        order_divides(v, (p - 1) * (q - 1), p * q),
{
    lemma_rsa_euler(p, q, v);
    assert((p - 1) * (q - 1) >= 1) by (nonlinear_arith)
        requires
            p > 1,
            q > 1,
    ;
}

/// Correctness of issuance for a fresh accumulator: over distinct primes `p`
/// and `q`, with the value `s^2 mod p * q` for a unit `s` (the form that
/// `new_with_elements` produces), the witness that `witness_mem` computes for
/// an element invertible modulo `(p - 1) * (q - 1)` passes `verify_mem`.
pub proof fn lemma_fresh_accumulator_witness_verifies(p: int, q: int, s: int, x: int)
    requires
        is_prime_spec(p),
        is_prime_spec(q),
        p != q,
        0 <= s < p * q,
        is_unit(s, p * q),
        is_unit(x, (p - 1) * (q - 1)),
    ensures
        ({
            let n = p * q;
            let v = pow(s, 2) % n;
            mem_verifies(n, v, x, value_root(n, v, x, (p - 1) * (q - 1)))
        }),
{
    let n = p * q;
    assert(n > 1) by (nonlinear_arith)
        requires
            n == p * q,
            p > 1,
            q > 1,
    ;
    let v = pow(s, 2) % n;
    lemma_unit_pow_two(s, n);
    lemma_unit_mod(pow(s, 2), n);
    lemma_mod_bound(pow(s, 2), n);
    lemma_rsa_trapdoor(p, q, v);
    lemma_issued_witness_verifies(n, v, (p - 1) * (q - 1), x);
}

/// The square of a unit is a unit.
proof fn lemma_unit_pow_two(s: int, n: int)
    requires
        is_unit(s, n),
    ensures
        is_unit(pow(s, 2), n),
{
    lemma_square_is_pow2(s);
    lemma_unit_mul(s, s, n);
}

/// A value whose order divides `phi` is invertible modulo `n`.
proof fn lemma_order_unit(v: int, phi: int, n: int)
    requires
        n > 1,
        order_divides(v, phi, n),
    ensures
        is_unit(v, n),
        mod_pow(v, phi, n) == 1,
{
    assert((pow(v, phi as nat) * 1) % n == 1) by {
        lemma_mul_basics(pow(v, phi as nat));
    }
    lemma_unit_from_pow(v, phi as nat, n);
}

/// Every integer power of one is one.
proof fn lemma_mod_pow_of_one(e: int, n: int)
    requires
        n > 1,
    ensures
        mod_pow(1, e, n) == 1,
{
    lemma_small_mod(1, n as nat);
    if e >= 0 {
        lemma1_pow(e as nat);
    } else {
        assert((1int * 1int) % n == 1);
        assert(is_unit(1, n));
        lemma_inv_mod(1, n);
        lemma_inverse_unique(1, 1, inv_mod(1, n), n);
        lemma1_pow((-e) as nat);
    }
}

/// An exponent congruent to one modulo `phi` fixes `v`.
proof fn lemma_exponent_one_mod_phi(v: int, e: int, phi: int, n: int)
    requires
        n > 1,
        0 <= v < n,
        order_divides(v, phi, n),
        e % phi == 1,
    ensures
        mod_pow(v, e, n) == v,
{
    lemma_order_unit(v, phi, n);
    lemma_fundamental_div_mod(e, phi);
    let q = e / phi;
    // e == phi * q + 1
    lemma_mod_pow_adds(v, phi * q, 1, n);
    lemma_mod_pow_multiplies(v, phi, q, n);
    lemma_mod_pow_of_one(q, n);
    lemma_pow1(v);
    lemma_small_mod(v as nat, n as nat);
    lemma_mul_basics(v);
    lemma_small_mod(1, n as nat);
}

/// Correctness of issuance: the membership witness that `witness_mem` (and
/// `insert`) computes for an element invertible modulo the trapdoor passes
/// `verify_mem` against the same accumulator value.
pub proof fn lemma_issued_witness_verifies(n: int, v: int, phi: int, x: int)
    requires
        n > 1,
        0 <= v < n,
        order_divides(v, phi, n),
        is_unit(x, phi),
    ensures
        mem_verifies(n, v, x, value_root(n, v, x, phi)),
{
    lemma_order_unit(v, phi, n);
    lemma_inv_mod(x, phi);
    let a = inv_mod(x, phi);
    let u = mod_pow(v, a, n);
    lemma_mod_pow_unit(v, a, n);
    lemma_unit_nonzero(u, n);
    lemma_mod_pow_multiplies(v, a, x, n);
    lemma_mul_is_commutative(a, x);
    lemma_exponent_one_mod_phi(v, a * x, phi, n);
}

/// Removal keeps the trapdoor a multiple of the value's order.
pub proof fn lemma_removal_keeps_order(n: int, v: int, phi: int, x: int)
    requires
        n > 1,
        0 <= v < n,
        order_divides(v, phi, n),
        is_unit(x, phi),
    ensures
        order_divides(value_root(n, v, x, phi), phi, n),
        0 <= value_root(n, v, x, phi) < n,
{
    lemma_order_unit(v, phi, n);
    let c = inv_mod(x, phi);
    let w = mod_pow(v, c, n);
    lemma_mod_pow_unit(v, c, n);
    lemma_mod_pow_multiplies(v, c, phi, n);
    lemma_mul_is_commutative(c, phi);
    lemma_mod_pow_multiplies(v, phi, c, n);
    lemma_mod_pow_of_one(c, n);
}

/// Exponents congruent modulo `phi` give the same power of `v`.
proof fn lemma_exponent_mod_phi(v: int, e: int, phi: int, n: int)
    requires
        n > 1,
        order_divides(v, phi, n),
    ensures
        mod_pow(v, e, n) == mod_pow(v, e % phi, n),
{
    lemma_order_unit(v, phi, n);
    lemma_fundamental_div_mod(e, phi);
    let q = e / phi;
    let r = e % phi;
    lemma_mod_pow_adds(v, phi * q, r, n);
    lemma_mod_pow_multiplies(v, phi, q, n);
    lemma_mod_pow_of_one(q, n);
    lemma_mul_basics(mod_pow(v, r, n));
    lemma_mod_twice(pow(v, r as nat), n);
}

/// Removing `x` and then `y` gives the value that removing `x * y` at once
/// gives.
pub proof fn lemma_removals_compose(n: int, v: int, phi: int, x: int, y: int)
    requires
        n > 1,
        0 <= v < n,
        order_divides(v, phi, n),
        is_unit(x, phi),
        is_unit(y, phi),
    ensures
        value_root(n, value_root(n, v, x, phi), y, phi) == value_root(n, v, x * y, phi),
{
    lemma_order_unit(v, phi, n);
    lemma_inv_mod(x, phi);
    lemma_inv_mod(y, phi);
    let c = inv_mod(x, phi);
    let d = inv_mod(y, phi);
    lemma_mod_pow_multiplies(v, c, d, n);
    lemma_exponent_mod_phi(v, c * d, phi, n);
    // (c * d) mod phi is the inverse of x * y
    lemma_unit_mul(x, y, phi);
    lemma_inv_mod(x * y, phi);
    lemma_mul_mod_noop_right(x * y, c * d, phi);
    assert((x * y) * (c * d) == (x * c) * (y * d)) by (nonlinear_arith);
    lemma_mul_mod_noop(x * c, y * d, phi);
    lemma_small_mod(1, phi as nat);
    lemma_mod_bound(c * d, phi);
    lemma_inverse_unique(x * y, (c * d) % phi, inv_mod(x * y, phi), phi);
    let e = inv_mod(x * y, phi);
    lemma_small_mod(e as nat, phi as nat);
    lemma_exponent_mod_phi(v, e, phi, n);
}

/// The value after removing the elements of `s` one at a time, in order.
pub open spec fn value_after_removals(n: int, v: int, s: Seq<int>, phi: int) -> int
    decreases s.len(),
{
    if s.len() == 0 {
        v
    } else {
        value_root(n, value_after_removals(n, v, s.drop_last(), phi), s.last(), phi)
    }
}

/// Batch removal agrees with removing one element at a time: removing the
/// elements of `s` one after the other (`remove`) gives the value that
/// removing their product at once (`remove_batch`) gives.
pub proof fn lemma_batch_removal_is_sequential(n: int, v: int, phi: int, s: Seq<int>)
    requires
        n > 1,
        phi > 1,
        0 <= v < n,
        order_divides(v, phi, n),
        forall|k: int| 0 <= k < s.len() ==> is_unit(#[trigger] s[k], phi),
    ensures
        value_after_removals(n, v, s, phi) == value_root(n, v, prod(s), phi),
    decreases s.len(),
{
    if s.len() == 0 {
        // the inverse of one is one, and v^1 == v
        assert((1int * 1int) % phi == 1) by {
            lemma_small_mod(1, phi as nat);
        }
        lemma_inv_mod(1, phi);
        lemma_inverse_unique(1, 1, inv_mod(1, phi), phi);
        lemma_pow1(v);
        lemma_small_mod(v as nat, n as nat);
    } else {
        let t = s.drop_last();
        assert forall|k: int| 0 <= k < t.len() implies is_unit(#[trigger] t[k], phi) by {
            assert(t[k] == s[k]);
        }
        lemma_batch_removal_is_sequential(n, v, phi, t);
        lemma_prod_unit(t, phi);
        assert(is_unit(s[s.len() - 1], phi));
        lemma_removals_compose(n, v, phi, prod(t), s.last());
    }
}

/// Batch removal in the entry's terms for an RSA modulus: over distinct
/// primes `p` and `q`, for an invertible value, removing the elements of `s`
/// one at a time gives the value that removing their product gives.
pub proof fn lemma_batch_removal_is_sequential_rsa(p: int, q: int, v: int, s: Seq<int>)
    requires
        is_prime_spec(p),
        is_prime_spec(q),
        p != q,
        0 <= v < p * q,
        is_unit(v, p * q),
        forall|k: int| 0 <= k < s.len() ==> is_unit(#[trigger] s[k], (p - 1) * (q - 1)),
    ensures
        value_after_removals(p * q, v, s, (p - 1) * (q - 1)) == value_root(
            p * q,
            v,
            prod(s),
            (p - 1) * (q - 1),
        ),
{
    assert(p * q > 1 && (p - 1) * (q - 1) > 1) by (nonlinear_arith)
        requires
            p > 1,
            q > 1,
            p != q,
    ;
    lemma_rsa_trapdoor(p, q, v);
    lemma_batch_removal_is_sequential(p * q, v, (p - 1) * (q - 1), s);
}

/// The list of all elements after removing the values of `s` one at a time.
pub open spec fn list_after_removals(e: Seq<int>, s: Seq<int>) -> Seq<int>
    decreases s.len(),
{
    if s.len() == 0 {
        e
    } else {
        remove_value(list_after_removals(e, s.drop_last()), s.last())
    }
}

proof fn lemma_remove_no_values(e: Seq<int>)
    ensures
        remove_values(e, Seq::empty()) == e,
    decreases e.len(),
{
    if e.len() > 0 {
        lemma_remove_no_values(e.drop_last());
        assert(e.drop_last().push(e.last()) =~= e);
    }
}

/// Removing `x` after the values of `t` is removing the values of `t.push(x)`.
proof fn lemma_remove_value_after_values(e: Seq<int>, t: Seq<int>, x: int)
    ensures
        remove_value(remove_values(e, t), x) == remove_values(e, t.push(x)),
    decreases e.len(),
{
    if e.len() > 0 {
        let e1 = e.drop_last();
        let y = e.last();
        lemma_remove_value_after_values(e1, t, x);
        let r = remove_values(e1, t);
        assert(t.push(x).contains(y) <==> (t.contains(y) || y == x)) by {
            if t.contains(y) {
                let i = choose|i: int| 0 <= i < t.len() && t[i] == y;
                assert(t.push(x)[i] == y);
            }
            if y == x {
                assert(t.push(x)[t.len() as int] == y);
            }
            if t.push(x).contains(y) {
                let i = choose|i: int| 0 <= i < t.push(x).len() && t.push(x)[i] == y;
                if i < t.len() {
                    assert(t[i] == y);
                }
            }
        }
        if !t.contains(y) {
            assert(r.push(y).drop_last() =~= r);
        }
    }
}

/// The list of all elements after a batch removal is the list after
/// removing the elements one at a time.
pub proof fn lemma_batch_list_is_sequential(e: Seq<int>, s: Seq<int>)
    ensures
        list_after_removals(e, s) == remove_values(e, s),
    decreases s.len(),
{
    if s.len() == 0 {
        lemma_remove_no_values(e);
        assert(s =~= Seq::<int>::empty());
    } else {
        lemma_batch_list_is_sequential(e, s.drop_last());
        lemma_remove_value_after_values(e, s.drop_last(), s.last());
        assert(s.drop_last().push(s.last()) =~= s);
    }
}

/// `remove` and `update_after_remove` have one effect: two states that both
/// result from removing `item` from `before` agree on the modulus, the value
/// and the list of all elements.
pub proof fn lemma_removal_effect_unique(
    before: (CLRSABAccumulator, Seq<BigNumber>),
    item: BigNumber,
    aux: Option<&BigNumber>,
    after1: (CLRSABAccumulator, Seq<BigNumber>),
    after2: (CLRSABAccumulator, Seq<BigNumber>),
)
    requires
        <CLRSABAccumulator as Subtractive>::removed(before, item, aux, after1),
        <CLRSABAccumulator as Subtractive>::removed(before, item, aux, after2),
    ensures
        after1.0.n() == after2.0.n(),
        after1.0.v() == after2.0.v(),
        vals(after1.1) == vals(after2.1),
{
}

/// Correctness of the holder update, without the trapdoor: if `u` proves
/// that `x` is accumulated in the invertible value `v0`, and the new value `v`
/// satisfies `v^removed == v0` (the removal of `removed`), the witness
/// recombined with Bézout coefficients `a * x + b * removed == 1` (the update
/// that `update` applies) proves that `x` is accumulated in `v`.
pub proof fn lemma_update_after_removal_verifies(
    n: int,
    v0: int,
    v: int,
    x: int,
    u: int,
    removed: int,
    a: int,
    b: int,
)
    requires
        n > 1,
        is_unit(v0, n),
        0 <= v < n,
        removed >= 1,
        mod_pow(v, removed, n) == v0,
        x >= 1,
        mem_verifies(n, v0, x, u),
        a * x + b * removed == 1,
    ensures
        mem_verifies(n, v, x, (modpow_value(u, b, n) * modpow_value(v, a, n)) % n),
{
    // v and u are invertible: a power of each is the unit v0
    lemma_mod_twice(pow(v, removed as nat), n);
    lemma_unit_congruent(v0, pow(v, removed as nat), n);
    lemma_unit_from_pow(v, removed as nat, n);
    lemma_mod_twice(pow(u, x as nat), n);
    lemma_unit_congruent(v0, pow(u, x as nat), n);
    lemma_unit_from_pow(u, x as nat, n);
    lemma_unit_nonzero(u, n);
    lemma_unit_nonzero(v, n);
    lemma_small_mod(v as nat, n as nat);
    let p = mod_pow(u, b, n);
    let q = mod_pow(v, a, n);
    lemma_mod_pow_unit(u, b, n);
    lemma_mod_pow_unit(v, a, n);
    lemma_unit_mul(p, q, n);
    lemma_unit_mod(p * q, n);
    let w = (p * q) % n;
    lemma_unit_nonzero(w, n);
    lemma_mod_twice(p * q, n);
    lemma_mod_pow_congruent(p * q, w, x, n);
    lemma_mod_pow_distributes(p, q, x, n);
    // p^x == u^(b*x) == (u^x)^b == v0^b == v^(removed*b)
    lemma_mod_pow_multiplies(u, b, x, n);
    lemma_mul_is_commutative(b, x);
    lemma_mod_pow_multiplies(u, x, b, n);
    lemma_mod_pow_multiplies(v, removed, b, n);
    // q^x == v^(a*x)
    lemma_mod_pow_multiplies(v, a, x, n);
    lemma_mod_pow_adds(v, removed * b, a * x, n);
    lemma_mul_is_commutative(removed, b);
    lemma_pow1(v);
    lemma_mod_pow_unit(v, 1, n);
}

/// Correctness of the holder update: if `u` proves that `x` is accumulated in
/// `v`, and `removed` is then removed, the witness recombined with Bézout
/// coefficients `a * x + b * removed == 1` (the update that `update` applies)
/// proves that `x` is accumulated in the new value.
pub proof fn lemma_removal_update_verifies(
    n: int,
    v: int,
    phi: int,
    x: int,
    u: int,
    removed: int,
    a: int,
    b: int,
)
    requires
        n > 1,
        0 <= v < n,
        order_divides(v, phi, n),
        is_unit(removed, phi),
        x != 0,
        u != 0 ==> is_unit(u, n),
        mem_verifies(n, v, x, u),
        a * x + b * removed == 1,
    ensures
        ({
            let v2 = value_root(n, v, removed, phi);
            mem_verifies(n, v2, x, (modpow_value(u, b, n) * modpow_value(v2, a, n)) % n)
        }),
{
    lemma_order_unit(v, phi, n);
    lemma_unit_nonzero(v, n);
    lemma_small_mod(v as nat, n as nat);
    // the witness is not zero, hence invertible
    if u == 0 {
        if x > 0 {
            lemma0_pow(x as nat);
            lemma_small_mod(0, n as nat);
        }
        assert(false);
    }
    let c = inv_mod(removed, phi);
    lemma_inv_mod(removed, phi);
    let v2 = mod_pow(v, c, n);
    lemma_mod_pow_unit(v, c, n);
    lemma_unit_nonzero(v2, n);
    // v == v2^removed
    lemma_mod_pow_multiplies(v, c, removed, n);
    lemma_mul_is_commutative(c, removed);
    lemma_exponent_one_mod_phi(v, c * removed, phi, n);
    assert(mod_pow(v2, removed, n) == v);
    let p = mod_pow(u, b, n);
    let q = mod_pow(v2, a, n);
    lemma_mod_pow_unit(u, b, n);
    lemma_mod_pow_unit(v2, a, n);
    lemma_unit_mul(p, q, n);
    lemma_unit_mod(p * q, n);
    let w = (p * q) % n;
    lemma_unit_nonzero(w, n);
    lemma_mod_twice(p * q, n);
    lemma_mod_pow_congruent(p * q, w, x, n);
    lemma_mod_pow_distributes(p, q, x, n);
    // p^x == u^(b*x) == (u^x)^b == v^b == v2^(removed*b)
    lemma_mod_pow_multiplies(u, b, x, n);
    lemma_mul_is_commutative(b, x);
    lemma_mod_pow_multiplies(u, x, b, n);
    lemma_mod_pow_multiplies(v2, removed, b, n);
    // q^x == v2^(a*x)
    lemma_mod_pow_multiplies(v2, a, x, n);
    lemma_mod_pow_adds(v2, removed * b, a * x, n);
    lemma_mul_is_commutative(removed, b);
    lemma_pow1(v2);
    lemma_mod_pow_unit(v2, 1, n);
    lemma_small_mod(v2 as nat, n as nat);
}

/// `((a * b) mod n * c) mod n == (a * (b * c) mod n) mod n`.
proof fn lemma_mulmod_assoc(a: int, b: int, c: int, n: int)
    requires
        n > 0,
    ensures
        (((a * b) % n) * c) % n == (a * ((b * c) % n)) % n,
{
    lemma_mul_mod_noop_left(a * b, c, n);
    lemma_mul_mod_noop_right(a, b * c, n);
    lemma_mul_is_associative(a, b, c);
}

/// `((p * q) mod n * r) mod n == ((p * r) mod n * q) mod n`.
proof fn lemma_mulmod_swap(p: int, q: int, r: int, n: int)
    requires
        n > 0,
    ensures
        (((p * q) % n) * r) % n == (((p * r) % n) * q) % n,
{
    lemma_mul_mod_noop_left(p * q, r, n);
    lemma_mul_mod_noop_left(p * r, q, n);
    assert((p * q) * r == (p * r) * q) by (nonlinear_arith);
}

/// A power of `X^a * Y^b` is `X^(a*c) * Y^(b*c)`.
proof fn lemma_pow_of_pair(x: int, y: int, a: int, b: int, c: int, n: int)
    requires
        is_unit(x, n),
        is_unit(y, n),
    ensures
        mod_pow((mod_pow(x, a, n) * mod_pow(y, b, n)) % n, c, n) == (mod_pow(x, a * c, n) * mod_pow(
            y,
            b * c,
            n,
        )) % n,
{
    let p = mod_pow(x, a, n);
    let q = mod_pow(y, b, n);
    lemma_mod_pow_unit(x, a, n);
    lemma_mod_pow_unit(y, b, n);
    lemma_unit_mul(p, q, n);
    lemma_mod_twice(p * q, n);
    lemma_mod_pow_congruent(p * q, (p * q) % n, c, n);
    lemma_mod_pow_distributes(p, q, c, n);
    lemma_mod_pow_multiplies(x, a, c, n);
    lemma_mod_pow_multiplies(y, b, c, n);
}

/// The shape of the verifier's checks: a power of `X^a * Y^b` times a power
/// of `X` and a power of `Y`.
proof fn lemma_check_shape(x: int, y: int, a: int, b: int, c: int, s1: int, s2: int, n: int)
    requires
        is_unit(x, n),
        is_unit(y, n),
    ensures
        (((mod_pow((mod_pow(x, a, n) * mod_pow(y, b, n)) % n, c, n) * mod_pow(x, s1, n)) % n)
            * mod_pow(y, s2, n)) % n == (mod_pow(x, a * c + s1, n) * mod_pow(y, b * c + s2, n))
            % n,
{
    lemma_pow_of_pair(x, y, a, b, c, n);
    let pa = mod_pow(x, a * c, n);
    let pb = mod_pow(y, b * c, n);
    let q1 = mod_pow(x, s1, n);
    let q2 = mod_pow(y, s2, n);
    // ((pa*pb)%n * q1)%n == ((pa*q1)%n * pb)%n
    lemma_mulmod_swap(pa, pb, q1, n);
    // (((pa*q1)%n * pb)%n * q2)%n == ((pa*q1)%n * (pb*q2)%n)%n
    lemma_mulmod_assoc((pa * q1) % n, pb, q2, n);
    lemma_mod_pow_adds(x, a * c, s1, n);
    lemma_mod_pow_adds(y, b * c, s2, n);
}

/// Units stay units under the products and powers of the proof.
proof fn lemma_unit_pow_mul(x: int, y: int, a: int, b: int, n: int)
    requires
        is_unit(x, n),
        is_unit(y, n),
    ensures
        is_unit((mod_pow(x, a, n) * mod_pow(y, b, n)) % n, n),
        (mod_pow(x, a, n) * mod_pow(y, b, n)) % n != 0,
        mod_pow(x, a, n) != 0,
{
    lemma_mod_pow_unit(x, a, n);
    lemma_mod_pow_unit(y, b, n);
    lemma_unit_nonzero(mod_pow(x, a, n), n);
    lemma_unit_mul(mod_pow(x, a, n), mod_pow(y, b, n), n);
    lemma_unit_mod(mod_pow(x, a, n) * mod_pow(y, b, n), n);
    lemma_unit_nonzero((mod_pow(x, a, n) * mod_pow(y, b, n)) % n, n);
}

/// An honest proof can be checked: every base that the verifier raises to a
/// negative exponent is invertible.
pub proof fn lemma_honest_proof_checkable(
    n: int,
    g: int,
    h: int,
    x: int,
    u: int,
    extra: Seq<u8>,
    rnd: &MemProofRandomness,
    p: &CLRSABMemProof,
)
    requires
        n > 1,
        is_unit(g, n),
        is_unit(h, n),
        is_unit(u, n),
        honest_mem_proof(n, g, h, x, u, extra, rnd, p),
    ensures
        exp_ok(p.c_u@, p.s_alpha@, n),
        exp_ok(p.c_r@, p.s_alpha@, n),
{
    lemma_unit_nonzero(u, n);
    lemma_unit_nonzero(h, n);
    lemma_unit_nonzero(g, n);
    lemma_pow1(u);
    lemma_small_mod(1, n as nat);
    lemma_unit_pow_mul(u, h, 1, rnd.r_2@, n);
    lemma_mul_mod_noop_left(u, mod_pow(h, rnd.r_2@, n), n);
    lemma_unit_pow_mul(h, g, rnd.r_2@, rnd.r_3@, n);
}

/// Completeness of the membership proof: the proof that `prove_mem` computes
/// for an element below `2^H2P_SIZE` with a valid witness, from any random
/// values in the prover's ranges, passes `verify_mem_proof` with the same
/// parameters and `extra` (the challenge is below `2^CHALLENGE_SIZE`, as
/// `prove_mem` ensures).
pub proof fn lemma_honest_proof_accepted(
    n: int,
    v: int,
    g: int,
    h: int,
    x: int,
    u: int,
    extra: Seq<u8>,
    rnd: &MemProofRandomness,
    p: &CLRSABMemProof,
)
    requires
        n > 1,
        is_unit(g, n),
        is_unit(h, n),
        is_unit(u, n),
        mem_verifies(n, v, x, u),
        honest_mem_proof(n, g, h, x, u, extra, rnd, p),
        randomness_in_range(n, rnd),
        0 <= x < pow2(H2P_SIZE as nat),
        0 <= super::zk_positive::proof_challenge(g, h, p, extra) < pow2(CHALLENGE_SIZE as nat),
    ensures
        mem_proof_accepts(n, v, g, h, p, extra),
{
    let c = super::zk_positive::proof_challenge(g, h, p, extra);
    assert(seq![p.c_e@, p.c_u@, p.c_r@, p.t_1@, p.t_2@, p.t_3@, p.t_4@] =~= seq![
        p.c_e@,
        p.c_u@,
        p.c_r@,
        p.t_1@,
        p.t_2@,
        p.t_3@,
        p.t_4@,
    ]);
    lemma_unit_nonzero(u, n);
    lemma_unit_nonzero(h, n);
    lemma_unit_nonzero(g, n);
    let r1 = rnd.r_1@;
    let r2 = rnd.r_2@;
    let r3 = rnd.r_3@;
    let ra = rnd.r_alpha@;
    let rb = rnd.r_beta@;
    let rd = rnd.r_delta@;
    let re = rnd.r_epsilon@;
    let rh = rnd.r_eta@;
    let rz = rnd.r_zeta@;
    let sa = p.s_alpha@;
    let sb = p.s_beta@;
    let sd = p.s_delta@;
    let se = p.s_epsilon@;
    let sz = p.s_zeta@;
    let sh = p.s_eta@;
    // c_r = h^r2 * g^r3 and c_e = g^x * h^r1 are invertible
    lemma_unit_pow_mul(h, g, r2, r3, n);
    lemma_unit_pow_mul(g, h, x, r1, n);
    lemma_unit_pow_mul(h, g, re, rz, n);
    lemma_unit_pow_mul(g, h, ra, rh, n);
    lemma_mod_pow_unit(h, -sb, n);
    lemma_unit_nonzero(mod_pow(h, -sb, n), n);
    // check 1: t_1 == c_r^c * h^s_epsilon * g^s_zeta
    lemma_check_shape(h, g, r2, r3, c, se, sz, n);
    assert(r2 * c + se == re) by (nonlinear_arith)
        requires
            se == re - c * r2,
    ;
    assert(r3 * c + sz == rz) by (nonlinear_arith)
        requires
            sz == rz - c * r3,
    ;
    // check 2: t_2 == c_e^c * g^s_alpha * h^s_eta
    lemma_check_shape(g, h, x, r1, c, sa, sh, n);
    assert(x * c + sa == ra) by (nonlinear_arith)
        requires
            sa == ra - c * x,
    ;
    assert(r1 * c + sh == rh) by (nonlinear_arith)
        requires
            sh == rh - c * r1,
    ;
    // check 4: t_4 == c_r^s_alpha * g^-s_delta * h^-s_beta
    lemma_check_shape(h, g, r2, r3, sa, -sb, -sd, n);
    lemma_check_shape(h, g, r2, r3, ra, -rb, -rd, n);
    let cr = (mod_pow(h, r2, n) * mod_pow(g, r3, n)) % n;
    lemma_mod_pow_unit(cr, sa, n);
    lemma_mod_pow_unit(cr, ra, n);
    lemma_mulmod_swap(mod_pow(cr, sa, n), mod_pow(g, -sd, n), mod_pow(h, -sb, n), n);
    lemma_mulmod_swap(mod_pow(cr, ra, n), mod_pow(g, -rd, n), mod_pow(h, -rb, n), n);
    assert(r2 * sa + -sb == r2 * ra + -rb) by (nonlinear_arith)
        requires
            sa == ra - c * x,
            sb == rb - c * r2 * x,
    ;
    assert(r3 * sa + -sd == r3 * ra + -rd) by (nonlinear_arith)
        requires
            sa == ra - c * x,
            sd == rd - c * r3 * x,
    ;
    // check 3: t_3 == v^c * c_u^s_alpha * h^-s_beta, with v == u^x
    lemma_pow1(u);
    let cu = (mod_pow(u, 1, n) * mod_pow(h, r2, n)) % n;
    lemma_mul_mod_noop_left(u, mod_pow(h, r2, n), n);
    lemma_unit_pow_mul(u, h, 1, r2, n);
    lemma_pow_of_pair(u, h, 1, r2, sa, n);
    lemma_pow_of_pair(u, h, 1, r2, ra, n);
    lemma_mod_pow_multiplies(u, x, c, n);
    let pv = mod_pow(u, x * c, n);
    let pu = mod_pow(u, 1 * sa, n);
    let ph = mod_pow(h, r2 * sa, n);
    let hb = mod_pow(h, -sb, n);
    // ((pv * (pu*ph)%n)%n * hb)%n == ((pv*pu)%n * (ph*hb)%n)%n
    lemma_mulmod_assoc(pv, pu, ph, n);
    lemma_mulmod_assoc((pv * pu) % n, ph, hb, n);
    lemma_mod_pow_adds(u, x * c, 1 * sa, n);
    lemma_mod_pow_adds(h, r2 * sa, -sb, n);
    lemma_mulmod_assoc(mod_pow(u, 1 * ra, n), mod_pow(h, r2 * ra, n), mod_pow(h, -rb, n), n);
    lemma_mod_pow_adds(h, r2 * ra, -rb, n);
    assert(x * c + 1 * sa == 1 * ra) by (nonlinear_arith)
        requires
            sa == ra - c * x,
    ;
    assert(r2 * sa + -sb == r2 * ra + -rb) by (nonlinear_arith)
        requires
            sa == ra - c * x,
            sb == rb - c * r2 * x,
    ;
    // the response for the element stays in range
    lemma_response_bound(ra, c, x);
}

/// Soundness with respect to the accumulator value: a proof that
/// `verify_mem_proof` accepts against the value `v` satisfies the third
/// relation `t_3 == v^c * c_u^s_alpha * h^-s_beta (mod n)` for that `v`.
pub proof fn lemma_accepted_proof_binds_value(
    n: int,
    v: int,
    g: int,
    h: int,
    p: &CLRSABMemProof,
    extra: Seq<u8>,
)
    requires
        mem_proof_accepts(n, v, g, h, p, extra),
    ensures
        ({
            let c = super::zk_positive::proof_challenge(g, h, p, extra);
            p.t_3@ == (((modpow_value(v, c, n) * modpow_value(p.c_u@, p.s_alpha@, n)) % n)
                * modpow_value(h, -p.s_beta@, n)) % n
        }),
{
}

/// Multiplication by a unit can be cancelled for values in `[0, n)`.
proof fn lemma_cancel_unit(a: int, b: int, d: int, n: int)
    requires
        is_unit(d, n),
        0 <= a < n,
        0 <= b < n,
        (a * d) % n == (b * d) % n,
    ensures
        a == b,
{
    lemma_inv_mod(d, n);
    let i = inv_mod(d, n);
    // a == a * (d * i) == ((a * d) % n * i) % n  (mod n), and the same for b
    lemma_mul_mod_noop_left(a * d, i, n);
    lemma_mul_mod_noop_left(b * d, i, n);
    lemma_mul_is_associative(a, d, i);
    lemma_mul_is_associative(b, d, i);
    lemma_mul_mod_noop_right(a, d * i, n);
    lemma_mul_mod_noop_right(b, d * i, n);
    lemma_mul_basics(a);
    lemma_mul_basics(b);
    lemma_small_mod(a as nat, n as nat);
    lemma_small_mod(b as nat, n as nat);
}

/// A membership proof is tied to the accumulator value it was made for: if
/// a proof is accepted against `v0` (with an invertible `c_u` and `h`), it is
/// rejected against every value `v` with `v^c != v0^c (mod n)`, such as the
/// value after the element was removed.
pub proof fn lemma_proof_rejected_after_value_change(
    n: int,
    v0: int,
    v: int,
    g: int,
    h: int,
    p: &CLRSABMemProof,
    extra: Seq<u8>,
)
    requires
        n > 1,
        is_unit(p.c_u@, n),
        is_unit(h, n),
        mem_proof_accepts(n, v0, g, h, p, extra),
        modpow_value(v, super::zk_positive::proof_challenge(g, h, p, extra), n) != modpow_value(
            v0,
            super::zk_positive::proof_challenge(g, h, p, extra),
            n,
        ),
    ensures
        !mem_proof_accepts(n, v, g, h, p, extra),
{
    let c = super::zk_positive::proof_challenge(g, h, p, extra);
    if mem_proof_accepts(n, v, g, h, p, extra) {
        let a0 = modpow_value(v0, c, n);
        let a = modpow_value(v, c, n);
        lemma_unit_nonzero(p.c_u@, n);
        lemma_unit_nonzero(h, n);
        let b = mod_pow(p.c_u@, p.s_alpha@, n);
        let e = mod_pow(h, -p.s_beta@, n);
        lemma_mod_pow_unit(p.c_u@, p.s_alpha@, n);
        lemma_mod_pow_unit(h, -p.s_beta@, n);
        lemma_unit_mul(b, e, n);
        lemma_unit_mod(b * e, n);
        let d = (b * e) % n;
        lemma_mulmod_assoc(a0, b, e, n);
        lemma_mulmod_assoc(a, b, e, n);
        lemma_mod_bound(pow(v0, c as nat), n);
        lemma_mod_bound(pow(v, c as nat), n);
        if c < 0 {
            lemma_mod_bound(pow(inv_mod(v0, n), (-c) as nat), n);
            lemma_mod_bound(pow(inv_mod(v, n), (-c) as nat), n);
        }
        lemma_cancel_unit(a, a0, d, n);
    }
}

} // verus!
