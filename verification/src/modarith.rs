//! Modular arithmetic: units, inverses and powers with integer exponents,
//! together with the group laws that the accumulator proofs rest on.
use vstd::prelude::*;
use vstd::arithmetic::power::*;
use vstd::arithmetic::div_mod::*;
use vstd::arithmetic::mul::*;

verus! {

pub open spec fn abs(a: int) -> int {
    if a < 0 {
        -a
    } else {
        a
    }
}

/// Greatest common divisor (Euclid).
pub open spec fn spec_gcd(a: nat, b: nat) -> nat
    decreases b,
{
    if b == 0 {
        a
    } else {
        spec_gcd(b, a % b)
    }
}

/// `n` is a prime number.
pub open spec fn is_prime_spec(n: int) -> bool {
    n > 1 && forall|d: int| 1 < d < n ==> #[trigger] (n % d) != 0
}

/// `a` has a multiplicative inverse modulo `m`.
pub open spec fn is_unit(a: int, m: int) -> bool {
    m > 1 && exists|i: int| #[trigger] ((a * i) % m) == 1
}

/// The inverse of `a` modulo `m`, in `[0, m)` (meaningful when `is_unit(a, m)`).
pub open spec fn inv_mod(a: int, m: int) -> int {
    choose|i: int| 0 <= i < m && #[trigger] ((a * i) % m) == 1
}

/// `b^e mod m` for an integer exponent; a negative exponent raises the inverse.
pub open spec fn mod_pow(b: int, e: int, m: int) -> int {
    if e >= 0 {
        pow(b, e as nat) % m
    } else {
        pow(inv_mod(b, m), (-e) as nat) % m
    }
}

/// What `modpow` computes: `mod_pow`, except that a zero base with a negative
/// exponent gives zero.
pub open spec fn modpow_value(b: int, e: int, m: int) -> int {
    if e < 0 && b == 0 {
        0
    } else {
        mod_pow(b, e, m)
    }
}

/// A unit is not zero modulo `m`.
pub proof fn lemma_unit_nonzero(a: int, m: int)
    requires
        is_unit(a, m),
    ensures
        a % m != 0,
        a != 0,
{
    let i = choose|i: int| #[trigger] ((a * i) % m) == 1;
    if a % m == 0 {
        lemma_mul_mod_noop_left(a, i, m);
        assert(((a % m) * i) % m == 0) by {
            lemma_mul_basics(i);
        }
    }
}

/// The inverse modulo `m` is the unique value in `[0, m)` that multiplies `a` to one.
pub proof fn lemma_inv_mod(a: int, m: int)
    requires
        is_unit(a, m),
    ensures
        0 <= inv_mod(a, m) < m,
        (a * inv_mod(a, m)) % m == 1,
        forall|j: int| 0 <= j < m && #[trigger] ((a * j) % m) == 1 ==> j == inv_mod(a, m),
{
    let i = choose|i: int| #[trigger] ((a * i) % m) == 1;
    lemma_mul_mod_noop_right(a, i, m);
    lemma_mod_bound(i, m);
    assert((a * (i % m)) % m == 1);
    let k = inv_mod(a, m);
    assert forall|j: int| 0 <= j < m && #[trigger] ((a * j) % m) == 1 implies j == k by {
        lemma_inverse_unique(a, j, k, m);
    }
}

/// Two values in `[0, m)` that both invert `a` are equal.
pub proof fn lemma_inverse_unique(a: int, x: int, y: int, m: int)
    requires
        m > 1,
        0 <= x < m,
        0 <= y < m,
        (a * x) % m == 1,
        (a * y) % m == 1,
    ensures
        x == y,
{
    // x = x * (a * y) = (a * x) * y = y  (mod m)
    lemma_mul_mod_noop_right(x, a * y, m);
    lemma_mul_is_associative(x, a, y);
    lemma_mul_is_commutative(x, a);
    lemma_mul_mod_noop_left(a * x, y, m);
    lemma_small_mod(x as nat, m as nat);
    lemma_small_mod(y as nat, m as nat);
    lemma_mul_basics(x);
    lemma_mul_basics(y);
}

/// A value is a unit exactly when something multiplies it to one modulo `m`;
/// units are closed under reduction and products.
pub proof fn lemma_unit_mod(a: int, m: int)
    requires
        is_unit(a, m),
    ensures
        is_unit(a % m, m),
{
    let i = choose|i: int| #[trigger] ((a * i) % m) == 1;
    lemma_mul_mod_noop_left(a, i, m);
    assert(((a % m) * i) % m == 1);
}

pub proof fn lemma_unit_mul(a: int, b: int, m: int)
    requires
        is_unit(a, m),
        is_unit(b, m),
    ensures
        is_unit(a * b, m),
{
    let i = choose|i: int| #[trigger] ((a * i) % m) == 1;
    let j = choose|j: int| #[trigger] ((b * j) % m) == 1;
    assert((a * b) * (i * j) == (a * i) * (b * j)) by (nonlinear_arith);
    lemma_mul_mod_noop(a * i, b * j, m);
    lemma_small_mod(1, m as nat);
    assert(((a * b) * (i * j)) % m == 1);
}

/// A value congruent to a unit is a unit.
pub proof fn lemma_unit_congruent(a: int, b: int, m: int)
    requires
        is_unit(a, m),
        a % m == b % m,
    ensures
        is_unit(b, m),
{
    let i = choose|i: int| #[trigger] ((a * i) % m) == 1;
    lemma_mul_mod_noop_left(a, i, m);
    lemma_mul_mod_noop_left(b, i, m);
    assert((b * i) % m == 1);
}

/// A value whose power is a unit is itself a unit.
pub proof fn lemma_unit_from_pow(a: int, k: nat, m: int)
    requires
        k >= 1,
        is_unit(pow(a, k), m),
    ensures
        is_unit(a, m),
{
    reveal(pow);
    let i = choose|i: int| #[trigger] ((pow(a, k) * i) % m) == 1;
    lemma_mul_is_associative(a, pow(a, (k - 1) as nat), i);
    assert((a * (pow(a, (k - 1) as nat) * i)) % m == 1);
}

/// `mod_pow` with a nonnegative exponent does not depend on the base's residue.
pub proof fn lemma_mod_pow_congruent(a: int, b: int, e: int, m: int)
    requires
        m > 1,
        a % m == b % m,
        is_unit(a, m),
    ensures
        mod_pow(a, e, m) == mod_pow(b, e, m),
{
    lemma_unit_congruent(a, b, m);
    if e >= 0 {
        lemma_pow_mod_noop(a, e as nat, m);
        lemma_pow_mod_noop(b, e as nat, m);
    } else {
        lemma_inv_mod(a, m);
        lemma_inv_mod(b, m);
        let ia = inv_mod(a, m);
        lemma_mul_mod_noop_left(a, ia, m);
        lemma_mul_mod_noop_left(b, ia, m);
        lemma_inverse_unique(b, ia, inv_mod(b, m), m);
    }
}

/// `a * inv(a) == 1`, so their powers multiply to one as well.
pub proof fn lemma_pow_inverse_product(a: int, k: nat, m: int)
    requires
        is_unit(a, m),
    ensures
        (pow(a, k) * pow(inv_mod(a, m), k)) % m == 1,
{
    lemma_inv_mod(a, m);
    let ia = inv_mod(a, m);
    lemma_pow_distributes(a, ia, k);
    lemma_pow_mod_noop(a * ia, k, m);
    lemma1_pow(k);
    lemma_small_mod(1, m as nat);
}

/// Every integer power of a unit, written with a shift `s` that makes both
/// exponents nonnegative: `a^e == a^(e+s) * inv(a)^s  (mod m)`.
pub proof fn lemma_mod_pow_shift(a: int, e: int, s: nat, m: int)
    requires
        is_unit(a, m),
        e + s >= 0,
    ensures
        mod_pow(a, e, m) == (pow(a, (e + s) as nat) * pow(inv_mod(a, m), s)) % m,
{
    lemma_inv_mod(a, m);
    let ia = inv_mod(a, m);
    if e >= 0 {
        // a^(e+s) * ia^s = a^e * (a^s * ia^s)
        lemma_pow_adds(a, e as nat, s);
        lemma_mul_is_associative(pow(a, e as nat), pow(a, s), pow(ia, s));
        lemma_pow_inverse_product(a, s, m);
        lemma_mul_mod_noop_right(pow(a, e as nat), pow(a, s) * pow(ia, s), m);
        lemma_mul_basics(pow(a, e as nat));
    } else {
        // a^(e+s) * ia^s = (a^(e+s) * ia^(e+s)) * ia^(-e)
        let t = (e + s) as nat;
        let d = (-e) as nat;
        lemma_pow_adds(ia, t, d);
        assert(t + d == s);
        lemma_mul_is_associative(pow(a, t), pow(ia, t), pow(ia, d));
        lemma_pow_inverse_product(a, t, m);
        lemma_mul_mod_noop_left(pow(a, t) * pow(ia, t), pow(ia, d), m);
        lemma_mul_basics(pow(ia, d));
    }
}

/// Powers of a unit add their exponents.
pub proof fn lemma_mod_pow_adds(a: int, e1: int, e2: int, m: int)
    requires
        is_unit(a, m),
    ensures
        (mod_pow(a, e1, m) * mod_pow(a, e2, m)) % m == mod_pow(a, e1 + e2, m),
{
    let s1: nat = if e1 < 0 { (-e1) as nat } else { 0 };
    let s2: nat = if e2 < 0 { (-e2) as nat } else { 0 };
    let ia = inv_mod(a, m);
    let t1 = (e1 + s1) as nat;
    let t2 = (e2 + s2) as nat;
    lemma_mod_pow_shift(a, e1, s1, m);
    lemma_mod_pow_shift(a, e2, s2, m);
    lemma_mod_pow_shift(a, e1 + e2, s1 + s2, m);
    let x1 = pow(a, t1) * pow(ia, s1);
    let x2 = pow(a, t2) * pow(ia, s2);
    lemma_mul_mod_noop(x1, x2, m);
    // x1 * x2 == a^(t1+t2) * ia^(s1+s2)
    lemma_pow_adds(a, t1, t2);
    lemma_pow_adds(ia, s1, s2);
    assert(x1 * x2 == pow(a, t1 + t2) * pow(ia, s1 + s2)) by (nonlinear_arith)
        requires
            x1 == pow(a, t1) * pow(ia, s1),
            x2 == pow(a, t2) * pow(ia, s2),
            pow(a, t1 + t2) == pow(a, t1) * pow(a, t2),
            pow(ia, s1 + s2) == pow(ia, s1) * pow(ia, s2),
    ;
    assert(t1 + t2 == e1 + e2 + s1 + s2);
}

/// A power of a unit is a unit, and its inverse is the opposite power.
pub proof fn lemma_mod_pow_unit(a: int, e: int, m: int)
    requires
        is_unit(a, m),
    ensures
        is_unit(mod_pow(a, e, m), m),
        inv_mod(mod_pow(a, e, m), m) == mod_pow(a, -e, m),
        0 <= mod_pow(a, e, m) < m,
{
    lemma_mod_pow_adds(a, e, -e, m);
    lemma_pow0(a);
    lemma_small_mod(1, m as nat);
    assert(mod_pow(a, 0, m) == 1);
    assert(is_unit(mod_pow(a, e, m), m));
    lemma_inv_mod(mod_pow(a, e, m), m);
    let b = mod_pow(a, e, m);
    let c = mod_pow(a, -e, m);
    if -e >= 0 {
        lemma_mod_bound(pow(a, (-e) as nat), m);
    } else {
        lemma_mod_bound(pow(inv_mod(a, m), e as nat), m);
    }
    if e >= 0 {
        lemma_mod_bound(pow(a, e as nat), m);
    } else {
        lemma_mod_bound(pow(inv_mod(a, m), (-e) as nat), m);
    }
    lemma_inverse_unique(b, c, inv_mod(b, m), m);
}

/// Raising a power of a unit to a nonnegative power multiplies the exponents.
proof fn lemma_mod_pow_multiplies_nonneg(a: int, e1: int, k: nat, m: int)
    requires
        is_unit(a, m),
    ensures
        mod_pow(mod_pow(a, e1, m), k as int, m) == mod_pow(a, e1 * k, m),
    decreases k,
{
    let b = mod_pow(a, e1, m);
    lemma_mod_pow_unit(a, e1, m);
    if k == 0 {
        lemma_pow0(b);
        lemma_pow0(a);
        lemma_mul_basics(e1);
    } else {
        lemma_mod_pow_multiplies_nonneg(a, e1, (k - 1) as nat, m);
        reveal(pow);
        assert(pow(b, k) == b * pow(b, (k - 1) as nat));
        lemma_mul_mod_noop_right(b, pow(b, (k - 1) as nat), m);
        lemma_mod_pow_adds(a, e1, e1 * (k - 1), m);
        lemma_mul_is_distributive_sub(e1, k as int, 1);
        lemma_mul_basics(e1);
    }
}

/// Raising a power of a unit multiplies the exponents.
pub proof fn lemma_mod_pow_multiplies(a: int, e1: int, e2: int, m: int)
    requires
        is_unit(a, m),
    ensures
        mod_pow(mod_pow(a, e1, m), e2, m) == mod_pow(a, e1 * e2, m),
{
    if e2 >= 0 {
        lemma_mod_pow_multiplies_nonneg(a, e1, e2 as nat, m);
    } else {
        // b^e2 = inv(b)^(-e2) = (a^(-e1))^(-e2)
        let b = mod_pow(a, e1, m);
        lemma_mod_pow_unit(a, e1, m);
        lemma_mod_pow_multiplies_nonneg(a, -e1, (-e2) as nat, m);
        lemma_mul_unary_negation(e1, -e2);
        lemma_mul_unary_negation(-e2, e1);
        lemma_mul_is_commutative(e1, e2);
        assert((-e1) * (-e2) == e1 * e2) by (nonlinear_arith);
    }
}

/// Integer powers distribute over products of units.
pub proof fn lemma_mod_pow_distributes(a: int, b: int, e: int, m: int)
    requires
        is_unit(a, m),
        is_unit(b, m),
    ensures
        mod_pow(a * b, e, m) == (mod_pow(a, e, m) * mod_pow(b, e, m)) % m,
{
    if e >= 0 {
        lemma_pow_distributes(a, b, e as nat);
        lemma_mul_mod_noop(pow(a, e as nat), pow(b, e as nat), m);
    } else {
        lemma_inv_mod(a, m);
        lemma_inv_mod(b, m);
        lemma_unit_mul(a, b, m);
        lemma_inv_mod(a * b, m);
        let ia = inv_mod(a, m);
        let ib = inv_mod(b, m);
        // (a*b) * ((ia*ib) % m) == 1 (mod m)
        lemma_mul_mod_noop(a, ia, m);
        assert((a * b) * (ia * ib) == (a * ia) * (b * ib)) by (nonlinear_arith);
        lemma_mul_mod_noop(a * ia, b * ib, m);
        lemma_small_mod(1, m as nat);
        assert(((a * ia) * (b * ib)) % m == 1);
        lemma_mul_mod_noop_right(a * b, ia * ib, m);
        assert(((a * b) * ((ia * ib) % m)) % m == 1);
        lemma_mod_bound(ia * ib, m);
        lemma_inverse_unique(a * b, (ia * ib) % m, inv_mod(a * b, m), m);
        let k = (-e) as nat;
        lemma_pow_mod_noop(ia * ib, k, m);
        lemma_pow_distributes(ia, ib, k);
        lemma_mul_mod_noop(pow(ia, k), pow(ib, k), m);
    }
}

} // verus!
