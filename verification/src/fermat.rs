//! Fermat's little theorem and its consequence for RSA moduli: modulo
//! `n = p * q` with distinct primes `p` and `q`, every unit `v` satisfies
//! `v^((p - 1) * (q - 1)) == 1`.  This is what makes `(p - 1) * (q - 1)` the
//! trapdoor of an accumulator over `n`.
use vstd::prelude::*;
use vstd::arithmetic::power::*;
use vstd::arithmetic::div_mod::*;
use vstd::arithmetic::mul::*;

use crate::modarith::{is_prime_spec, is_unit};

verus! {

/// The binomial coefficient `n choose k`, by Pascal's rule.
pub open spec fn binom(n: nat, k: nat) -> nat
    decreases n,
{
    if k == 0 {
        1
    } else if n == 0 {
        0
    } else {
        binom((n - 1) as nat, k) + binom((n - 1) as nat, (k - 1) as nat)
    }
}

/// `sum_{k < m} binom(n, k) * a^k`.
pub open spec fn binom_sum(n: nat, a: int, m: nat) -> int
    decreases m,
{
    if m == 0 {
        0
    } else {
        binom_sum(n, a, (m - 1) as nat) + binom(n, (m - 1) as nat) * pow(a, (m - 1) as nat)
    }
}

proof fn lemma_binom_above(n: nat, k: nat)
    requires
        k > n,
    ensures
        binom(n, k) == 0,
    decreases n,
{
    if n > 0 {
        lemma_binom_above((n - 1) as nat, k);
        lemma_binom_above((n - 1) as nat, (k - 1) as nat);
    }
}

proof fn lemma_binom_diagonal(n: nat)
    ensures
        binom(n, n) == 1,
    decreases n,
{
    if n > 0 {
        lemma_binom_diagonal((n - 1) as nat);
        lemma_binom_above((n - 1) as nat, n);
    }
}

/// Absorption: `k * binom(n, k) == n * binom(n - 1, k - 1)`.
proof fn lemma_binom_absorption(n: nat, k: nat)
    requires
        n >= 1,
        k >= 1,
    ensures
        k * binom(n, k) == n * binom((n - 1) as nat, (k - 1) as nat),
    decreases n,
{
    let c = binom((n - 1) as nat, (k - 1) as nat);
    if n == 1 {
        if k > 1 {
            lemma_binom_above(0, (k - 1) as nat);
            lemma_binom_above(0, k);
            assert(binom(n, k) == 0);
            assert(c == 0);
            lemma_mul_basics(k as int);
            lemma_mul_basics(n as int);
        } else {
            assert(binom(0, 1) == 0);
            assert(binom(n, k) == 1);
            assert(c == 1);
        }
    } else if k == 1 {
        // binom(n, 1) == binom(n - 1, 1) + 1 == (n - 1) + 1
        lemma_binom_absorption((n - 1) as nat, 1);
        assert(binom((n - 2) as nat, 0) == 1);
        lemma_mul_basics(binom((n - 1) as nat, 1) as int);
        lemma_mul_basics((n - 1) as int);
        assert(binom((n - 1) as nat, 1) == n - 1);
        assert(binom(n, 1) == n);
        assert(c == 1);
    } else {
        let c1 = binom((n - 1) as nat, k);
        let d1 = binom((n - 2) as nat, (k - 1) as nat);
        let d2 = binom((n - 2) as nat, (k - 2) as nat);
        lemma_binom_absorption((n - 1) as nat, k);
        lemma_binom_absorption((n - 1) as nat, (k - 1) as nat);
        assert(c == d1 + d2);
        assert(binom(n, k) == c1 + c);
        assert(k * (c1 + c) == n * c) by (nonlinear_arith)
            requires
                k * c1 == (n - 1) * d1,
                (k - 1) * c == (n - 1) * d2,
                c == d1 + d2,
        ;
    }
}

/// Euclid's lemma in the form used here: modulo a prime, every residue that
/// is not zero is invertible.
pub proof fn lemma_prime_unit(a: int, p: int)
    requires
        is_prime_spec(p),
        0 < a < p,
    ensures
        is_unit(a, p),
    decreases a,
{
    if a == 1 {
        assert((1 * 1int) % p == 1) by {
            lemma_small_mod(1, p as nat);
        }
    } else {
        let q = p / a;
        let r = p % a;
        lemma_fundamental_div_mod(p, a);
        assert(r != 0);
        lemma_mod_bound(p, a);
        lemma_prime_unit(r, p);
        let i = choose|i: int| #[trigger] ((r * i) % p) == 1;
        let j = -(q * i);
        assert(a * j == p * (-i) + r * i) by (nonlinear_arith)
            requires
                p == a * q + r,
                j == -(q * i),
        ;
        lemma_mod_multiples_vanish(-i, r * i, p);
        assert((a * j) % p == 1);
    }
}

/// A value that is not a multiple of the prime `p` is invertible modulo `p`.
pub proof fn lemma_prime_unit_mod(a: int, p: int)
    requires
        is_prime_spec(p),
        a % p != 0,
    ensures
        is_unit(a, p),
{
    lemma_mod_bound(a, p);
    lemma_prime_unit(a % p, p);
    let i = choose|i: int| #[trigger] ((a % p) * i) % p == 1;
    lemma_mul_mod_noop_left(a, i, p);
    assert((a * i) % p == 1);
}

/// If a prime divides `k * c` but not `k`, it divides `c`.
proof fn lemma_prime_divides_factor(k: int, c: int, p: int)
    requires
        is_prime_spec(p),
        k % p != 0,
        (k * c) % p == 0,
    ensures
        c % p == 0,
{
    lemma_prime_unit_mod(k, p);
    let i = choose|i: int| #[trigger] ((k * i) % p) == 1;
    // c == (k * i) * c == i * (k * c) == 0  (mod p)
    lemma_mul_mod_noop_left(k * i, c, p);
    lemma_mul_basics(c);
    lemma_mul_mod_noop_right(i, k * c, p);
    lemma_mul_basics(i);
    assert((k * i) * c == i * (k * c)) by (nonlinear_arith);
    lemma_small_mod(0, p as nat);
}

/// A prime divides the binomial coefficients strictly inside its row.
proof fn lemma_prime_divides_binom(p: nat, k: nat)
    requires
        is_prime_spec(p as int),
        0 < k < p,
    ensures
        (binom(p, k) as int) % (p as int) == 0,
{
    lemma_binom_absorption(p, k);
    let c = binom((p - 1) as nat, (k - 1) as nat);
    lemma_mod_multiples_basic(c as int, p as int);
    lemma_mul_is_commutative(p as int, c as int);
    lemma_small_mod(k, p);
    lemma_prime_divides_factor(k as int, binom(p, k) as int, p as int);
}

/// The first partial sum is one.
proof fn lemma_binom_sum_one(n: nat, a: int)
    ensures
        binom_sum(n, a, 1) == 1,
{
    lemma_pow0(a);
    assert(binom_sum(n, a, 0) == 0);
    assert(binom(n, 0) == 1);
    assert(binom_sum(n, a, 1) == binom_sum(n, a, 0) + binom(n, 0) * pow(a, 0));
}

/// Pascal's rule on partial sums:
/// `binom_sum(n + 1, a, m) == binom_sum(n, a, m) + a * binom_sum(n, a, m - 1)`.
proof fn lemma_binom_sum_step(n: nat, a: int, m: nat)
    requires
        m >= 1,
    ensures
        binom_sum(n + 1, a, m) == binom_sum(n, a, m) + a * binom_sum(n, a, (m - 1) as nat),
    decreases m,
{
    if m == 1 {
        lemma_binom_sum_one(n + 1, a);
        lemma_binom_sum_one(n, a);
        lemma_mul_basics(a);
    } else {
        let m1 = (m - 1) as nat;
        let m2 = (m - 2) as nat;
        lemma_binom_sum_step(n, a, m1);
        let s1 = binom_sum(n, a, m1);
        let s2 = binom_sum(n, a, m2);
        let b0 = binom(n, m1) as int;
        let b1 = binom(n, m2) as int;
        assert(binom(n + 1, m1) == b0 + b1);
        reveal(pow);
        assert(pow(a, m1) == a * pow(a, m2));
        let t = pow(a, m2);
        assert(binom_sum(n, a, m1) == s2 + b1 * t);
        assert(s1 + a * s2 + (b0 + b1) * (a * t) == (s1 + b0 * (a * t)) + a * (s2 + b1 * t))
            by (nonlinear_arith);
    }
}

/// The binomial theorem at `b = 1`: `(a + 1)^n == sum_{k <= n} binom(n, k) * a^k`.
proof fn lemma_binomial(n: nat, a: int)
    ensures
        pow(a + 1, n) == binom_sum(n, a, n + 1),
    decreases n,
{
    reveal(pow);
    if n == 0 {
        lemma_binom_sum_one(0, a);
    } else {
        let n1 = (n - 1) as nat;
        lemma_binomial(n1, a);
        lemma_binom_sum_step(n1, a, n + 1);
        lemma_binom_above(n1, n);
        assert(binom_sum(n1, a, n + 1) == binom_sum(n1, a, n) + binom(n1, n) * pow(a, n));
        let s = binom_sum(n1, a, n);
        assert(pow(a + 1, n) == (a + 1) * s);
        assert(s + 0 * pow(a, n) + a * s == (a + 1) * s) by (nonlinear_arith);
    }
}

/// Modulo a prime `p`, the partial sums of row `p` are one until the last term.
proof fn lemma_binom_sum_prime(p: nat, a: int, m: nat)
    requires
        is_prime_spec(p as int),
        1 <= m <= p,
    ensures
        binom_sum(p, a, m) % (p as int) == 1,
    decreases m,
{
    let pi = p as int;
    if m == 1 {
        lemma_binom_sum_one(p, a);
        lemma_small_mod(1, p);
    } else {
        let m1 = (m - 1) as nat;
        lemma_binom_sum_prime(p, a, m1);
        lemma_prime_divides_binom(p, m1);
        let c = binom(p, m1) as int;
        let t = pow(a, m1);
        lemma_fundamental_div_mod(c, pi);
        assert(c * t == pi * ((c / pi) * t)) by (nonlinear_arith)
            requires
                c == pi * (c / pi) + c % pi,
                c % pi == 0,
        ;
        lemma_mod_multiples_vanish((c / pi) * t, binom_sum(p, a, m1), pi);
    }
}

/// The freshman's dream modulo a prime: `(a + 1)^p == a^p + 1 (mod p)`.
proof fn lemma_freshman(p: nat, a: int)
    requires
        is_prime_spec(p as int),
    ensures
        pow(a + 1, p) % (p as int) == (pow(a, p) + 1) % (p as int),
{
    let pi = p as int;
    lemma_binomial(p, a);
    lemma_binom_diagonal(p);
    let s = binom_sum(p, a, p);
    assert(binom_sum(p, a, p + 1) == s + binom(p, p) * pow(a, p));
    lemma_binom_sum_prime(p, a, p);
    lemma_mul_basics(pow(a, p));
    lemma_add_mod_noop(s, pow(a, p), pi);
    lemma_add_mod_noop(1, pow(a, p), pi);
    lemma_small_mod(1, p);
}

/// `a^p == a (mod p)` for every `a >= 0`.
proof fn lemma_pow_prime_fixes(p: nat, a: nat)
    requires
        is_prime_spec(p as int),
    ensures
        pow(a as int, p) % (p as int) == (a as int) % (p as int),
    decreases a,
{
    let pi = p as int;
    if a == 0 {
        lemma0_pow(p);
    } else {
        let a1 = (a - 1) as nat;
        lemma_pow_prime_fixes(p, a1);
        lemma_freshman(p, a1 as int);
        lemma_add_mod_noop(pow(a1 as int, p), 1, pi);
        lemma_add_mod_noop(a1 as int, 1, pi);
    }
}

/// Fermat's little theorem: `a^(p - 1) == 1 (mod p)` for a prime `p` that
/// does not divide `a`.
pub proof fn lemma_fermat(a: int, p: int)
    requires
        is_prime_spec(p),
        a % p != 0,
    ensures
        pow(a, (p - 1) as nat) % p == 1,
{
    let r = a % p;
    lemma_mod_bound(a, p);
    lemma_pow_prime_fixes(p as nat, r as nat);
    lemma_pow_mod_noop(a, (p - 1) as nat, p);
    // r^p == r * r^(p - 1)
    lemma_pow_adds(r, 1, (p - 1) as nat);
    lemma_pow1(r);
    let t = pow(r, (p - 1) as nat);
    lemma_small_mod(r as nat, p as nat);
    lemma_prime_unit_mod(r, p);
    let i = choose|i: int| #[trigger] ((r * i) % p) == 1;
    // t == (r * i) * t == i * (r * t) == i * r == 1  (mod p)
    lemma_mul_mod_noop_left(r * i, t, p);
    lemma_mul_basics(t);
    assert((r * i) * t == i * (r * t)) by (nonlinear_arith);
    lemma_mul_mod_noop_right(i, r * t, p);
    lemma_small_mod(r as nat, p as nat);
    lemma_mul_mod_noop_right(i, r, p);
    lemma_mul_is_commutative(i, r);
}

/// Two distinct primes do not divide each other.
proof fn lemma_distinct_primes(p: int, q: int)
    requires
        is_prime_spec(p),
        is_prime_spec(q),
        p != q,
    ensures
        p % q != 0,
{
    if p < q {
        lemma_small_mod(p as nat, q as nat);
    } else {
        assert(1 < q < p);
    }
}

/// Euler's theorem for an RSA modulus: with distinct primes `p` and `q`, every
/// unit `v` modulo `p * q` has `v^((p - 1) * (q - 1)) == 1 (mod p * q)`.
pub proof fn lemma_rsa_euler(p: int, q: int, v: int)
    requires
        is_prime_spec(p),
        is_prime_spec(q),
        p != q,
        is_unit(v, p * q),
    ensures
        pow(v, ((p - 1) * (q - 1)) as nat) % (p * q) == 1,
{
    let n = p * q;
    let i = choose|i: int| #[trigger] ((v * i) % n) == 1;
    // v is a unit modulo p and modulo q
    lemma_fundamental_div_mod(v * i, n);
    let k = (v * i) / n;
    assert(v * i == p * (q * k) + 1 && v * i == q * (p * k) + 1) by (nonlinear_arith)
        requires
            v * i == n * k + 1,
            n == p * q,
    ;
    lemma_mod_multiples_vanish(q * k, 1, p);
    lemma_mod_multiples_vanish(p * k, 1, q);
    lemma_small_mod(1, p as nat);
    lemma_small_mod(1, q as nat);
    assert(is_unit(v, p));
    assert(is_unit(v, q));
    if v % p == 0 {
        lemma_mul_mod_noop_left(v, i, p);
        lemma_mul_basics(i);
        lemma_small_mod(0, p as nat);
        assert(false);
    }
    if v % q == 0 {
        lemma_mul_mod_noop_left(v, i, q);
        lemma_mul_basics(i);
        lemma_small_mod(0, q as nat);
        assert(false);
    }
    lemma_fermat(v, p);
    lemma_fermat(v, q);
    let e1 = (p - 1) as nat;
    let e2 = (q - 1) as nat;
    assert(e1 * e2 == (p - 1) * (q - 1));
    let x = pow(v, e1 * e2);
    // x == (v^(p-1))^(q-1) == 1 (mod p), and symmetrically mod q
    lemma_pow_multiplies(v, e1, e2);
    lemma_pow_mod_noop(pow(v, e1), e2, p);
    lemma1_pow(e2);
    assert(x % p == 1);
    lemma_mul_is_commutative(e1 as int, e2 as int);
    lemma_pow_multiplies(v, e2, e1);
    lemma_pow_mod_noop(pow(v, e2), e1, q);
    lemma1_pow(e1);
    assert(x % q == 1);
    // x - 1 == p * s with q | s
    lemma_fundamental_div_mod(x, p);
    let s = x / p;
    assert(x == p * s + 1);
    lemma_fundamental_div_mod(x, q);
    assert((p * s) % q == 0) by {
        lemma_mod_multiples_vanish(x / q, 0, q);
        lemma_small_mod(0, q as nat);
        assert(p * s == q * (x / q));
    }
    lemma_distinct_primes(p, q);
    lemma_prime_divides_factor(p, s, q);
    lemma_fundamental_div_mod(s, q);
    let t = s / q;
    assert(x == n * t + 1) by (nonlinear_arith)
        requires
            x == p * s + 1,
            s == q * t + s % q,
            s % q == 0,
            n == p * q,
    ;
    assert(n > 1) by (nonlinear_arith)
        requires
            n == p * q,
            p > 1,
            q > 1,
    ;
    lemma_mod_multiples_vanish(t, 1, n);
    lemma_small_mod(1, n as nat);
}

} // verus!
