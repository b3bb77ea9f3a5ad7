//! Zero-knowledge proof of membership in a CL-RSA-B accumulator, after
//! Camenisch and Lysyanskaya, "Efficient Revocation of Anonymous Group
//! Membership Certificates and Anonymous Credentials" (2001), appendix A,
//! made non-interactive with the Fiat-Shamir heuristic.
use vstd::prelude::*;
use vstd::arithmetic::power2::pow2;

use crate::accumulator::{Accumulator, Positive, ZKPositive};
use crate::bignum::BigNumber;
use crate::modarith::{abs, is_unit, mod_pow, modpow_value, lemma_mod_pow_unit, lemma_unit_nonzero, lemma_unit_mul, lemma_unit_mod};
use super::accumulator::CLRSABAccumulator;
use super::hash::{challenge_value, hash_to_k_bits};
use super::helpers::generate_quadratic_residue;
use super::mem_proof::{CLRSABMemParams, CLRSABMemProof, MemProofRandomness};
use super::witness::{CLRSABWitness, witness_u};
use super::{CHALLENGE_SIZE, H2P_SIZE, NONCE_SIZE, P_SIZE};

verus! {

/// `modpow` does not abort: a negative exponent needs an invertible base
/// (or zero).
pub open spec fn exp_ok(b: int, e: int, n: int) -> bool {
    e < 0 && n > 1 && b != 0 ==> is_unit(b, n)
}

/// The challenge of a proof, hashed from the parameters, the commitments and
/// the `t` values, and `extra`.
pub open spec fn proof_challenge(g: int, h: int, p: &CLRSABMemProof, extra: Seq<u8>) -> int {
    challenge_value(
        g,
        h,
        seq![p.c_e@, p.c_u@, p.c_r@, p.t_1@, p.t_2@, p.t_3@, p.t_4@],
        extra,
    )
}

/// `p` is the proof that an honest prover computes for element `x` with
/// witness `u`, from the random values `rnd`.
pub open spec fn honest_mem_proof(
    n: int,
    g: int,
    h: int,
    x: int,
    u: int,
    extra: Seq<u8>,
    rnd: &MemProofRandomness,
    p: &CLRSABMemProof,
) -> bool {
    let c_e = (modpow_value(g, x, n) * modpow_value(h, rnd.r_1@, n)) % n;
    let c_u = (u * modpow_value(h, rnd.r_2@, n)) % n;
    let c_r = (modpow_value(h, rnd.r_2@, n) * modpow_value(g, rnd.r_3@, n)) % n;
    let t_1 = (modpow_value(h, rnd.r_epsilon@, n) * modpow_value(g, rnd.r_zeta@, n)) % n;
    let t_2 = (modpow_value(g, rnd.r_alpha@, n) * modpow_value(h, rnd.r_eta@, n)) % n;
    let t_3 = (modpow_value(c_u, rnd.r_alpha@, n) * modpow_value(h, -rnd.r_beta@, n)) % n;
    let t_4 = (((modpow_value(c_r, rnd.r_alpha@, n) * modpow_value(g, -rnd.r_delta@, n)) % n)
        * modpow_value(h, -rnd.r_beta@, n)) % n;
    let c = challenge_value(g, h, seq![c_e, c_u, c_r, t_1, t_2, t_3, t_4], extra);
    &&& p.c_e@ == c_e
    &&& p.c_u@ == c_u
    &&& p.c_r@ == c_r
    &&& p.t_1@ == t_1
    &&& p.t_2@ == t_2
    &&& p.t_3@ == t_3
    &&& p.t_4@ == t_4
    &&& p.s_alpha@ == rnd.r_alpha@ - c * x
    &&& p.s_eta@ == rnd.r_eta@ - c * rnd.r_1@
    &&& p.s_beta@ == rnd.r_beta@ - c * rnd.r_2@ * x
    &&& p.s_epsilon@ == rnd.r_epsilon@ - c * rnd.r_2@
    &&& p.s_zeta@ == rnd.r_zeta@ - c * rnd.r_3@
    &&& p.s_delta@ == rnd.r_delta@ - c * rnd.r_3@ * x
}

/// The ranges from which the prover draws its random values.
pub open spec fn randomness_in_range(n: int, rnd: &MemProofRandomness) -> bool {
    let n4 = n / 4;
    let a = pow2((H2P_SIZE + CHALLENGE_SIZE + NONCE_SIZE) as nat) as int;
    let e = n4 * pow2((CHALLENGE_SIZE + NONCE_SIZE) as nat);
    let b = n4 * pow2((H2P_SIZE + CHALLENGE_SIZE + NONCE_SIZE) as nat);
    &&& 0 <= rnd.r_1@ < n4
    &&& 0 <= rnd.r_2@ < n4
    &&& 0 <= rnd.r_3@ < n4
    &&& -a <= rnd.r_alpha@ < a
    &&& -e <= rnd.r_epsilon@ < e
    &&& -e <= rnd.r_eta@ < e
    &&& -e <= rnd.r_zeta@ < e
    &&& -b <= rnd.r_beta@ < b
    &&& -b <= rnd.r_delta@ < b
}

/// The verifier's checks on a proof `p` against the accumulator value `v`:
/// the four relations, and the range check `|s_alpha| < 2^593` on the
/// response for the element.
pub open spec fn mem_proof_accepts(
    n: int,
    v: int,
    g: int,
    h: int,
    p: &CLRSABMemProof,
    extra: Seq<u8>,
) -> bool {
    let c = proof_challenge(g, h, p, extra);
    &&& p.t_1@ == (((modpow_value(p.c_r@, c, n) * modpow_value(h, p.s_epsilon@, n)) % n)
        * modpow_value(g, p.s_zeta@, n)) % n
    &&& p.t_2@ == (((modpow_value(p.c_e@, c, n) * modpow_value(g, p.s_alpha@, n)) % n)
        * modpow_value(h, p.s_eta@, n)) % n
    &&& p.t_3@ == (((modpow_value(v, c, n) * modpow_value(p.c_u@, p.s_alpha@, n)) % n)
        * modpow_value(h, -p.s_beta@, n)) % n
    &&& p.t_4@ == (((modpow_value(p.c_r@, p.s_alpha@, n) * modpow_value(g, -p.s_delta@, n)) % n)
        * modpow_value(h, -p.s_beta@, n)) % n
    &&& abs(p.s_alpha@) < pow2((H2P_SIZE + CHALLENGE_SIZE + NONCE_SIZE + 1) as nat)
}

/// The honest response for the element stays in range: with
/// `|r_alpha| <= 2^592`, a challenge below `2^256` and an element below
/// `2^256`, `|r_alpha - c * x| < 2^593`.
pub proof fn lemma_response_bound(r_alpha: int, c: int, x: int)
    requires
        -pow2((H2P_SIZE + CHALLENGE_SIZE + NONCE_SIZE) as nat) <= r_alpha < pow2(
            (H2P_SIZE + CHALLENGE_SIZE + NONCE_SIZE) as nat,
        ),
        0 <= c < pow2(CHALLENGE_SIZE as nat),
        0 <= x < pow2(H2P_SIZE as nat),
    ensures
        abs(r_alpha - c * x) < pow2((H2P_SIZE + CHALLENGE_SIZE + NONCE_SIZE + 1) as nat),
{
    let a = pow2(256);
    let big = pow2(592);
    vstd::arithmetic::power2::lemma_pow2_adds(256, 256);
    vstd::arithmetic::power2::lemma_pow2_adds(512, 80);
    vstd::arithmetic::power2::lemma_pow2_adds(592, 1);
    vstd::arithmetic::power2::lemma2_to64();
    vstd::arithmetic::power2::lemma_pow2_pos(80);
    assert(c * x < a * a) by (nonlinear_arith)
        requires
            0 <= c < a,
            0 <= x < a,
    ;
    assert(pow2(512) <= big) by (nonlinear_arith)
        requires
            big == pow2(512) * pow2(80),
            pow2(80) >= 1,
            pow2(512) >= 0,
    ;
    assert(c * x >= 0) by (nonlinear_arith)
        requires
            c >= 0,
            x >= 0,
    ;
}

/// `(a * b) mod n` and `(a * b * c) mod n` of invertible values are invertible.
proof fn lemma_unit_mulmod(a: int, b: int, n: int)
    requires
        is_unit(a, n),
        is_unit(b, n),
    ensures
        is_unit((a * b) % n, n),
        (a * b) % n != 0,
{
    lemma_unit_mul(a, b, n);
    lemma_unit_mod(a * b, n);
    lemma_unit_nonzero((a * b) % n, n);
}

/// `a` is zero or invertible modulo `n`: every power of it that `modpow`
/// computes is defined.
pub open spec fn zero_or_unit(a: int, n: int) -> bool {
    a == 0 || is_unit(a, n)
}

/// Powers of a value that is zero or invertible are zero or invertible, and
/// are defined for every exponent.
proof fn lemma_zero_or_unit_pow(b: int, e: int, n: int)
    requires
        n > 1,
        zero_or_unit(b, n),
    ensures
        zero_or_unit(modpow_value(b, e, n), n),
        exp_ok(b, e, n),
{
    if b == 0 {
        if e == 0 {
            vstd::arithmetic::power::lemma_pow0(0);
            vstd::arithmetic::div_mod::lemma_small_mod(1, n as nat);
            assert((1int * 1int) % n == 1);
        } else if e > 0 {
            vstd::arithmetic::power::lemma0_pow(e as nat);
            vstd::arithmetic::div_mod::lemma_small_mod(0, n as nat);
        }
    } else {
        lemma_pow_unit(b, e, n);
    }
}

/// Products, reduced modulo `n`, of values that are zero or invertible are
/// zero or invertible.
proof fn lemma_zero_or_unit_mulmod(a: int, b: int, n: int)
    requires
        n > 1,
        zero_or_unit(a, n),
        zero_or_unit(b, n),
    ensures
        zero_or_unit((a * b) % n, n),
{
    if a == 0 || b == 0 {
        assert(a * b == 0) by (nonlinear_arith)
            requires
                a == 0 || b == 0,
        ;
        vstd::arithmetic::div_mod::lemma_small_mod(0, n as nat);
    } else {
        lemma_unit_mulmod(a, b, n);
    }
}

/// `modpow_value` of an invertible base is an invertible `mod_pow`.
proof fn lemma_pow_unit(b: int, e: int, n: int)
    requires
        is_unit(b, n),
    ensures
        modpow_value(b, e, n) == mod_pow(b, e, n),
        is_unit(mod_pow(b, e, n), n),
        mod_pow(b, e, n) != 0,
{
    lemma_unit_nonzero(b, n);
    lemma_mod_pow_unit(b, e, n);
    lemma_unit_nonzero(mod_pow(b, e, n), n);
}

impl CLRSABAccumulator {
    /// The proof for `item` with witness value `u`, computed from the given
    /// random values.
    pub fn prove_mem_with(
        &self,
        params: &CLRSABMemParams,
        item: &BigNumber,
        u: &BigNumber,
        extra: &[u8],
        rnd: &MemProofRandomness,
    ) -> (p: CLRSABMemProof)
        requires
            zero_or_unit(params.g@, self.n()),
            zero_or_unit(params.h@, self.n()),
            zero_or_unit(u@, self.n()),
        ensures
            honest_mem_proof(self.n(), params.g@, params.h@, item@, u@, extra@, rnd, &p),
            0 <= proof_challenge(params.g@, params.h@, &p, extra@) < pow2(CHALLENGE_SIZE as nat),
    {
        let n = self.modulus();
        let g = &params.g;
        let h = &params.h;
        let ghost nn = n@;
        proof {
            lemma_zero_or_unit_pow(g@, item@, nn);
            lemma_zero_or_unit_pow(h@, rnd.r_1@, nn);
            lemma_zero_or_unit_pow(h@, rnd.r_2@, nn);
            lemma_zero_or_unit_pow(g@, rnd.r_3@, nn);
            lemma_zero_or_unit_pow(h@, rnd.r_epsilon@, nn);
            lemma_zero_or_unit_pow(g@, rnd.r_zeta@, nn);
            lemma_zero_or_unit_pow(g@, rnd.r_alpha@, nn);
            lemma_zero_or_unit_pow(h@, rnd.r_eta@, nn);
            lemma_zero_or_unit_pow(h@, -rnd.r_beta@, nn);
            lemma_zero_or_unit_pow(g@, -rnd.r_delta@, nn);
        }
        let c_e = g.modpow(item, n).modmul(&h.modpow(&rnd.r_1, n), n);
        let h_r2 = h.modpow(&rnd.r_2, n);
        let c_u = u.modmul(&h_r2, n);
        let c_r = h_r2.modmul(&g.modpow(&rnd.r_3, n), n);
        proof {
            lemma_zero_or_unit_mulmod(u@, h_r2@, nn);
            lemma_zero_or_unit_mulmod(h_r2@, modpow_value(g@, rnd.r_3@, nn), nn);
            lemma_zero_or_unit_pow((u@ * h_r2@) % nn, rnd.r_alpha@, nn);
            lemma_zero_or_unit_pow((h_r2@ * modpow_value(g@, rnd.r_3@, nn)) % nn, rnd.r_alpha@, nn);
        }
        let t_1 = h.modpow(&rnd.r_epsilon, n).modmul(&g.modpow(&rnd.r_zeta, n), n);
        let t_2 = g.modpow(&rnd.r_alpha, n).modmul(&h.modpow(&rnd.r_eta, n), n);
        let neg_beta = rnd.r_beta.negate();
        let t_3 = c_u.modpow(&rnd.r_alpha, n).modmul(&h.modpow(&neg_beta, n), n);
        let neg_delta = rnd.r_delta.negate();
        let t_4 = c_r.modpow(&rnd.r_alpha, n).modmul(&g.modpow(&neg_delta, n), n).modmul(
            &h.modpow(&neg_beta, n),
            n,
        );
        let nums = vec![&c_e, &c_u, &c_r, &t_1, &t_2, &t_3, &t_4];
        assert(nums@.map_values(|b: &BigNumber| b@) =~= seq![
            c_e@,
            c_u@,
            c_r@,
            t_1@,
            t_2@,
            t_3@,
            t_4@,
        ]);
        let c = hash_to_k_bits(g, h, &nums, extra);
        let s_alpha = rnd.r_alpha.minus(&c.times(item));
        let s_eta = rnd.r_eta.minus(&c.times(&rnd.r_1));
        let s_beta = rnd.r_beta.minus(&c.times(&rnd.r_2).times(item));
        let s_epsilon = rnd.r_epsilon.minus(&c.times(&rnd.r_2));
        let s_zeta = rnd.r_zeta.minus(&c.times(&rnd.r_3));
        let s_delta = rnd.r_delta.minus(&c.times(&rnd.r_3).times(item));
        assert(seq![c_e@, c_u@, c_r@, t_1@, t_2@, t_3@, t_4@] =~= nums@.map_values(
            |b: &BigNumber| b@,
        ));
        CLRSABMemProof {
            c_u,
            c_e,
            c_r,
            t_1,
            t_2,
            t_3,
            t_4,
            s_alpha,
            s_beta,
            s_delta,
            s_epsilon,
            s_zeta,
            s_eta,
        }
    }
}

impl CLRSABAccumulator {
    /// The proof parameters from the drawn residue `g` and exponent `exp`:
    /// `g` and `h = g^exp mod n`.
    pub fn params_from(&self, g: BigNumber, exp: &BigNumber) -> (r: CLRSABMemParams)
        requires
            exp@ >= 0,
        ensures
            r.g@ == g@,
            r.h@ == mod_pow(g@, exp@, self.n()),
    {
        let n = self.modulus();
        let h = g.modpow(exp, n);
        CLRSABMemParams { g, h }
    }
}

impl ZKPositive for CLRSABAccumulator {
    type MemProof = CLRSABMemProof;
    type MemParams = CLRSABMemParams;

    /// The prover draws values below a quarter of the modulus, which must be
    /// positive, and the generators and the witness must be invertible
    /// modulo `n` or zero (so that every power it computes is defined).
    open spec fn prove_mem_ok(
        &self,
        params: &CLRSABMemParams,
        item: &BigNumber,
        witness: &CLRSABWitness,
    ) -> bool {
        &&& self.n() >= 4
        &&& zero_or_unit(params.g@, self.n())
        &&& zero_or_unit(params.h@, self.n())
        &&& zero_or_unit(witness_u(witness), self.n())
    }

    /// Every power with a negative exponent that the verifier computes has an
    /// invertible (or zero) base.
    open spec fn verify_mem_proof_ok(&self, params: &CLRSABMemParams, proof: &CLRSABMemProof) -> bool {
        let n = self.n();
        let g = params.g@;
        let h = params.h@;
        &&& exp_ok(h, proof.s_epsilon@, n)
        &&& exp_ok(g, proof.s_zeta@, n)
        &&& exp_ok(g, proof.s_alpha@, n)
        &&& exp_ok(h, proof.s_eta@, n)
        &&& exp_ok(proof.c_u@, proof.s_alpha@, n)
        &&& exp_ok(h, -proof.s_beta@, n)
        &&& exp_ok(proof.c_r@, proof.s_alpha@, n)
        &&& exp_ok(g, -proof.s_delta@, n)
    }

    /// Two quadratic residues with unknown discrete logarithm: a random
    /// residue `g`, and `h = g^e` for a random exponent `e` of `P_SIZE / 2`
    /// bits.
    fn gen_param(&self) -> (r: CLRSABMemParams)
        ensures
            exists|s: int|
                0 <= s < self.n() && r.g@ == vstd::arithmetic::power::pow(s, 2) % self.n(),
            exists|e: int|
                pow2((P_SIZE / 2) as nat) <= e < pow2((P_SIZE / 2 + 1) as nat) && r.h@
                    == #[trigger] mod_pow(r.g@, e, self.n()),
    {
        let n = self.modulus();
        let g = generate_quadratic_residue(n);
        let exp = BigNumber::random_bits((P_SIZE / 2) as u32);
        proof {
            assert(((P_SIZE / 2) as u32) as nat == (P_SIZE / 2) as nat);
            assert(8 * (((P_SIZE / 2) as nat + 7) / 8) == (P_SIZE / 2) as nat);
            vstd::arithmetic::power2::lemma_pow2_adds((P_SIZE / 2) as nat, 1);
            vstd::arithmetic::power2::lemma2_to64();
        }
        let r = self.params_from(g, &exp);
        assert(r.h@ == mod_pow(r.g@, exp@, self.n()));
        r
    }

    /// Draws the random values and computes the proof.
    fn prove_mem(
        &self,
        params: &CLRSABMemParams,
        item: &BigNumber,
        witness: &CLRSABWitness,
        extra: &[u8],
    ) -> (p: CLRSABMemProof)
        ensures
            exists|rnd: MemProofRandomness|
                randomness_in_range(self.n(), &rnd) && #[trigger] honest_mem_proof(
                    self.n(),
                    params.g@,
                    params.h@,
                    item@,
                    witness_u(witness),
                    extra@,
                    &rnd,
                    &p,
                ),
            0 <= proof_challenge(params.g@, params.h@, &p, extra@) < pow2(CHALLENGE_SIZE as nat),
            0 <= item@ < pow2(H2P_SIZE as nat) ==> abs(p.s_alpha@) < pow2(
                (H2P_SIZE + CHALLENGE_SIZE + NONCE_SIZE + 1) as nat,
            ),
    {
        let n = self.modulus();
        let n_fourths = n.shr(2);
        let zero = BigNumber::zero();
        proof {
            vstd::arithmetic::power2::lemma2_to64();
        }
        assert(n_fourths@ == n@ / 4);
        let r_1 = BigNumber::random_range(&zero, &n_fourths);
        let r_2 = BigNumber::random_range(&zero, &n_fourths);
        let r_3 = BigNumber::random_range(&zero, &n_fourths);
        let one = BigNumber::one();
        let range = one.shl(H2P_SIZE + CHALLENGE_SIZE + NONCE_SIZE);
        proof {
            vstd::arithmetic::power2::lemma_pow2_pos((H2P_SIZE + CHALLENGE_SIZE + NONCE_SIZE) as nat);
            vstd::arithmetic::power2::lemma_pow2_pos((CHALLENGE_SIZE + NONCE_SIZE) as nat);
        }
        let r_alpha = BigNumber::random_range(&range.negate(), &range);
        let range = n_fourths.shl(CHALLENGE_SIZE + NONCE_SIZE);
        assert(range@ > 0) by (nonlinear_arith)
            requires
                range@ == n_fourths@ * pow2((CHALLENGE_SIZE + NONCE_SIZE) as nat),
                n_fourths@ >= 1,
                pow2((CHALLENGE_SIZE + NONCE_SIZE) as nat) > 0,
        ;
        let r_epsilon = BigNumber::random_range(&range.negate(), &range);
        let r_eta = BigNumber::random_range(&range.negate(), &range);
        let r_zeta = BigNumber::random_range(&range.negate(), &range);
        let range = n_fourths.shl(H2P_SIZE + CHALLENGE_SIZE + NONCE_SIZE);
        assert(range@ > 0) by (nonlinear_arith)
            requires
                range@ == n_fourths@ * pow2((H2P_SIZE + CHALLENGE_SIZE + NONCE_SIZE) as nat),
                n_fourths@ >= 1,
                pow2((H2P_SIZE + CHALLENGE_SIZE + NONCE_SIZE) as nat) > 0,
        ;
        let r_beta = BigNumber::random_range(&range.negate(), &range);
        let r_delta = BigNumber::random_range(&range.negate(), &range);
        let rnd = MemProofRandomness {
            r_1,
            r_2,
            r_3,
            r_alpha,
            r_beta,
            r_delta,
            r_epsilon,
            r_eta,
            r_zeta,
        };
        let u = match witness {
            CLRSABWitness::Membership { u } => u,
        };
        let p = self.prove_mem_with(params, item, u, extra, &rnd);
        assert(randomness_in_range(self.n(), &rnd));
        proof {
            if 0 <= item@ < pow2(H2P_SIZE as nat) {
                lemma_response_bound(
                    rnd.r_alpha@,
                    proof_challenge(params.g@, params.h@, &p, extra@),
                    item@,
                );
            }
        }
        p
    }

    /// Recomputes the challenge and checks the four relations and the bound
    /// on `s_alpha`.
    fn verify_mem_proof(&self, params: &CLRSABMemParams, proof: &CLRSABMemProof, extra: &[u8]) -> (r:
        bool)
        ensures
            r == mem_proof_accepts(self.n(), self.v(), params.g@, params.h@, proof, extra@),
    {
        let n = self.modulus();
        let g = &params.g;
        let h = &params.h;
        let nums = vec![
            &proof.c_e,
            &proof.c_u,
            &proof.c_r,
            &proof.t_1,
            &proof.t_2,
            &proof.t_3,
            &proof.t_4,
        ];
        assert(nums@.map_values(|b: &BigNumber| b@) =~= seq![
            proof.c_e@,
            proof.c_u@,
            proof.c_r@,
            proof.t_1@,
            proof.t_2@,
            proof.t_3@,
            proof.t_4@,
        ]);
        let c = hash_to_k_bits(g, h, &nums, extra);
        let neg_beta = proof.s_beta.negate();
        let neg_delta = proof.s_delta.negate();
        let mut check = true;
        let e1 = proof.c_r.modpow(&c, n).modmul(&h.modpow(&proof.s_epsilon, n), n).modmul(
            &g.modpow(&proof.s_zeta, n),
            n,
        );
        check = check && proof.t_1.equals(&e1);
        let e2 = proof.c_e.modpow(&c, n).modmul(&g.modpow(&proof.s_alpha, n), n).modmul(
            &h.modpow(&proof.s_eta, n),
            n,
        );
        check = check && proof.t_2.equals(&e2);
        let e3 = self.value().modpow(&c, n).modmul(&proof.c_u.modpow(&proof.s_alpha, n), n).modmul(
            &h.modpow(&neg_beta, n),
            n,
        );
        check = check && proof.t_3.equals(&e3);
        let e4 = proof.c_r.modpow(&proof.s_alpha, n).modmul(&g.modpow(&neg_delta, n), n).modmul(
            &h.modpow(&neg_beta, n),
            n,
        );
        check = check && proof.t_4.equals(&e4);
        let zero = BigNumber::zero();
        let s_alpha = if proof.s_alpha.lt(&zero) {
            proof.s_alpha.negate()
        } else {
            proof.s_alpha.copy()
        };
        let bound = BigNumber::one().shl(H2P_SIZE + CHALLENGE_SIZE + NONCE_SIZE + 1);
        check = check && s_alpha.lt(&bound);
        check
    }
}

} // verus!
