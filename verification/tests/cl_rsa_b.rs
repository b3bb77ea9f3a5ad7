use revocation_bench::accumulator::{Accumulator, Additive, Positive, Subtractive, ZKPositive};
use revocation_bench::bignum::BigNumber;
use revocation_bench::cl_rsa_b::accumulator::CLRSABAccumulator;
use revocation_bench::cl_rsa_b::hash::hash_to_prime;
use revocation_bench::cl_rsa_b::helpers::quadratic_residue_of;
use revocation_bench::cl_rsa_b::mem_proof::{CLRSABMemParams, CLRSABMemProof};
use revocation_bench::cl_rsa_b::update::CLRSABUpdate;
use revocation_bench::cl_rsa_b::witness::CLRSABWitness;

fn big(v: u64) -> BigNumber {
    BigNumber::from_u64(v)
}

fn witness_value(w: &CLRSABWitness) -> &BigNumber {
    match w {
        CLRSABWitness::Membership { u } => u,
    }
}

/// An accumulator over two safe primes of 64 bits, and its trapdoor.
fn small_accumulator() -> (CLRSABAccumulator, BigNumber) {
    let p = BigNumber::safe_prime(64);
    let q = BigNumber::safe_prime(64);
    let (acc, phi) = CLRSABAccumulator::with_primes(&p, &q);
    (acc, phi.unwrap())
}

#[test]
fn test_hash() {
    assert!(hash_to_prime(b"test").unwrap().is_prime());
}

#[test]
fn hash_to_prime_is_deterministic_and_odd() {
    let a = hash_to_prime(b"element-1").unwrap();
    let b = hash_to_prime(b"element-1").unwrap();
    let c = hash_to_prime(b"element-2").unwrap();
    assert_eq!(a, b);
    assert_ne!(a, c);
    let bytes = a.to_bytes();
    assert_eq!(bytes.len(), 32);
    assert_eq!(bytes[31] & 1, 1);
    assert_eq!(bytes[7] & 1, 1);
}

#[test]
fn hash_to_prime_first_candidate_is_the_marked_digest() {
    // round one hashes the input followed by the counter 1 in eight bytes
    let mut data = b"test".to_vec();
    data.extend_from_slice(&1u64.to_be_bytes());
    let mut digest: [u8; 32] = blake3::hash(&data).into();
    digest[31] |= 1;
    digest[7] |= 1;
    let first = BigNumber::from_slice(&digest);
    let p = hash_to_prime(b"test").unwrap();
    if first.is_prime() {
        assert_eq!(p, first);
    } else {
        assert_ne!(p, first);
    }
}

#[test]
fn with_primes_builds_modulus_and_trapdoor() {
    let (acc, phi) = CLRSABAccumulator::with_primes(&big(1019), &big(1187));
    assert_eq!(*acc.modulus(), big(1019 * 1187));
    assert_eq!(phi.unwrap(), big(1018 * 1186));
    assert!(acc.value().lt(acc.modulus()));
}

#[test]
fn issued_witness_verifies() {
    let (acc, phi) = small_accumulator();
    let x = hash_to_prime(b"holder").unwrap();
    assert!(x.is_invertible_mod(&phi));
    let w = acc.witness_mem(&x, Some(&phi), &[]);
    // u == value^(x^-1 mod phi) mod n
    let inv = x.invert(&phi).unwrap();
    assert_eq!(*witness_value(&w), acc.value().modpow(&inv, acc.modulus()));
    assert!(acc.verify_mem(&x, Some(&w)));
    // the witness of another element does not verify for x
    let y = hash_to_prime(b"other").unwrap();
    let wy = acc.witness_mem(&y, Some(&phi), &[]);
    assert!(!acc.verify_mem(&x, Some(&wy)));
}

#[test]
fn insert_keeps_value_and_witnesses() {
    let (mut acc, phi) = small_accumulator();
    let x = hash_to_prime(b"first").unwrap();
    let y = hash_to_prime(b"second").unwrap();
    let mut all = Vec::new();
    let value_before = acc.value().copy();
    let (wx, upd) = acc.insert(&x, Some(&phi), &mut all);
    let wx = wx.unwrap();
    assert!(matches!(upd, Some(CLRSABUpdate::Insertion)));
    let (_wy, _) = acc.insert(&y, Some(&phi), &mut all);
    assert_eq!(*acc.value(), value_before);
    assert_eq!(all.len(), 2);
    assert_eq!(all[0], x);
    assert_eq!(all[1], y);
    // an insertion update leaves the witness as it is
    let wx2 = acc.update(&wx, Some(&x), &CLRSABUpdate::Insertion);
    assert_eq!(*witness_value(&wx2), *witness_value(&wx));
    assert!(acc.verify_mem(&x, Some(&wx2)));
}

#[test]
fn removal_update_keeps_holder_valid() {
    let (mut acc, phi) = small_accumulator();
    let x = hash_to_prime(b"holder").unwrap();
    let revoked = hash_to_prime(b"revoked").unwrap();
    let mut all = vec![x.copy(), revoked.copy()];
    let w = acc.witness_mem(&x, Some(&phi), &all);
    let old_value = acc.value().copy();
    let (none, upd) = acc.remove(&revoked, Some(&phi), &mut all);
    assert!(none.is_none());
    let upd = upd.unwrap();
    match &upd {
        CLRSABUpdate::Removal { x: r } => assert_eq!(*r, revoked),
        CLRSABUpdate::Insertion => panic!("expected a removal"),
    }
    assert_eq!(all.len(), 1);
    assert_eq!(all[0], x);
    // the new value is the revoked element's root of the old one
    let inv = revoked.invert(&phi).unwrap();
    assert_eq!(*acc.value(), old_value.modpow(&inv, acc.modulus()));
    // the old witness no longer verifies; the updated one does
    assert!(!acc.verify_mem(&x, Some(&w)));
    let w2 = acc.update(&w, Some(&x), &upd);
    assert!(acc.verify_mem(&x, Some(&w2)));
}

#[test]
fn batch_removal_update_keeps_holder_valid() {
    let (mut acc, phi) = small_accumulator();
    let x = hash_to_prime(b"holder").unwrap();
    let r1 = hash_to_prime(b"r1").unwrap();
    let r2 = hash_to_prime(b"r2").unwrap();
    let r3 = hash_to_prime(b"r3").unwrap();
    let mut all = vec![r1.copy(), x.copy(), r2.copy(), r3.copy()];
    let w = acc.witness_mem(&x, Some(&phi), &all);
    let old_value = acc.value().copy();
    let upd = acc.update_after_remove_batch(vec![&r1, &r2, &r3], Some(&phi), &mut all).unwrap();
    let product = r1.times(&r2).times(&r3);
    match &upd {
        CLRSABUpdate::Removal { x: p } => assert_eq!(*p, product),
        CLRSABUpdate::Insertion => panic!("expected a removal"),
    }
    assert_eq!(all.len(), 1);
    assert_eq!(all[0], x);
    let inv = product.invert(&phi).unwrap();
    assert_eq!(*acc.value(), old_value.modpow(&inv, acc.modulus()));
    let w2 = acc.update(&w, Some(&x), &upd);
    assert!(acc.verify_mem(&x, Some(&w2)));
}

#[test]
fn remove_batch_equals_removing_the_product() {
    let (acc_a, phi) = small_accumulator();
    let r1 = hash_to_prime(b"a").unwrap();
    let r2 = hash_to_prime(b"b").unwrap();
    let v0 = acc_a.value().copy();
    let mut acc = acc_a;
    let mut all = vec![r1.copy(), r2.copy()];
    let upd = acc.remove_batch(vec![&r1, &r2], Some(&phi), &mut all);
    assert!(all.is_empty());
    assert!(matches!(upd, Some(CLRSABUpdate::Removal { .. })));
    let inv = r1.times(&r2).invert(&phi).unwrap();
    assert_eq!(*acc.value(), v0.modpow(&inv, acc.modulus()));
}

#[test]
fn insert_batch_records_items_and_keeps_value() {
    let (mut acc, phi) = small_accumulator();
    let a = hash_to_prime(b"a").unwrap();
    let b = hash_to_prime(b"b").unwrap();
    let v0 = acc.value().copy();
    let mut all = vec![big(7)];
    let upd = acc.insert_batch(vec![&a, &b], Some(&phi), &mut all);
    assert!(matches!(upd, Some(CLRSABUpdate::Insertion)));
    assert_eq!(all.len(), 3);
    assert_eq!(all[0], big(7));
    assert_eq!(all[1], a);
    assert_eq!(all[2], b);
    assert_eq!(*acc.value(), v0);
}

#[test]
fn update_after_remove_returns_removal() {
    let (mut acc, phi) = small_accumulator();
    let r = hash_to_prime(b"gone").unwrap();
    let keep = hash_to_prime(b"kept").unwrap();
    let mut all = vec![r.copy(), keep.copy(), r.copy()];
    let upd = acc.update_after_remove(&r, Some(&phi), &mut all).unwrap();
    assert!(matches!(upd, CLRSABUpdate::Removal { .. }));
    assert_eq!(all.len(), 1);
    assert_eq!(all[0], keep);
}

#[test]
fn membership_proof_is_accepted() {
    let (acc, phi) = small_accumulator();
    let x = hash_to_prime(b"holder").unwrap();
    let w = acc.witness_mem(&x, Some(&phi), &[]);
    let params = acc.gen_param();
    let n = acc.modulus();
    assert!(params.g.is_invertible_mod(n));
    assert!(params.h.is_invertible_mod(n));
    assert!(witness_value(&w).is_invertible_mod(n));
    let proof = acc.prove_mem(&params, &x, &w, b"eudi-rcb-nonce");
    assert!(acc.verify_mem_proof(&params, &proof, b"eudi-rcb-nonce"));
    assert!(revocation_bench::bench_cl_rsa_b::proof_size(&proof) > 0);
}

#[test]
fn membership_proof_bound_to_extra() {
    let (acc, phi) = small_accumulator();
    let x = hash_to_prime(b"holder").unwrap();
    let w = acc.witness_mem(&x, Some(&phi), &[]);
    let params = acc.gen_param();
    let proof = acc.prove_mem(&params, &x, &w, b"nonce-a");
    // another nonce changes the challenge, so the relations fail
    assert!(!acc.verify_mem_proof(&params, &proof, b"nonce-b"));
}

#[test]
fn gen_param_gives_residues_below_modulus() {
    let (acc, _phi) = small_accumulator();
    let params = acc.gen_param();
    assert!(params.g.lt(acc.modulus()));
    assert!(params.h.lt(acc.modulus()));
    assert!(!params.g.negate().lt(&BigNumber::zero()) || !params.g.lt(&BigNumber::zero()));
}

#[test]
fn batch_removal_equals_sequential_removals() {
    let (acc0, phi) = small_accumulator();
    let r1 = hash_to_prime(b"first revoked").unwrap();
    let r2 = hash_to_prime(b"second revoked").unwrap();
    let r3 = hash_to_prime(b"third revoked").unwrap();
    let keep = big(7);
    let start = vec![r2.copy(), keep.copy(), r1.copy(), r3.copy(), r1.copy()];
    let mut one_by_one = acc0.clone();
    let mut all1 = start.clone();
    one_by_one.remove(&r1, Some(&phi), &mut all1);
    one_by_one.remove(&r2, Some(&phi), &mut all1);
    one_by_one.remove(&r3, Some(&phi), &mut all1);
    let mut batch = acc0.clone();
    let mut all2 = start.clone();
    batch.remove_batch(vec![&r1, &r2, &r3], Some(&phi), &mut all2);
    assert!(one_by_one == batch);
    assert_eq!(all1, all2);
    assert_eq!(all2, vec![keep]);
    assert!(*batch.value() != *acc0.value());
}

#[test]
fn remove_and_update_after_remove_agree() {
    let (acc0, phi) = small_accumulator();
    let r = hash_to_prime(b"revoked").unwrap();
    let start = vec![r.copy(), big(5)];
    let mut a1 = acc0.clone();
    let mut e1 = start.clone();
    let u = a1.update_after_remove(&r, Some(&phi), &mut e1);
    let mut a2 = acc0.clone();
    let mut e2 = start.clone();
    let (w, u2) = a2.remove(&r, Some(&phi), &mut e2);
    assert!(w.is_none());
    assert!(a1 == a2);
    assert_eq!(e1, e2);
    match (u, u2) {
        (Some(CLRSABUpdate::Removal { x }), Some(CLRSABUpdate::Removal { x: x2 })) => {
            assert_eq!(x, r);
            assert_eq!(x2, r);
        }
        _ => panic!("expected removal updates"),
    }
}

/// A proof whose four relations hold trivially (every base zero), with the
/// given response `s_alpha`.
fn degenerate_proof(s_alpha: BigNumber) -> CLRSABMemProof {
    CLRSABMemProof {
        c_u: big(0),
        c_e: big(0),
        c_r: big(0),
        t_1: big(0),
        t_2: big(0),
        t_3: big(0),
        t_4: big(0),
        s_alpha,
        s_beta: big(0),
        s_delta: big(0),
        s_epsilon: big(1),
        s_zeta: big(1),
        s_eta: big(1),
    }
}

#[test]
fn verifier_checks_the_response_range() {
    let (acc, _phi) = small_accumulator();
    let params = CLRSABMemParams { g: big(0), h: big(0) };
    let bound = big(1).shl(593);
    let inside = bound.minus(&big(1));
    assert!(acc.verify_mem_proof(&params, &degenerate_proof(inside), b"n"));
    assert!(!acc.verify_mem_proof(&params, &degenerate_proof(bound.copy()), b"n"));
}

#[test]
fn honest_response_is_in_range() {
    let (acc, phi) = small_accumulator();
    let x = hash_to_prime(b"holder").unwrap();
    let w = acc.witness_mem(&x, Some(&phi), &[]);
    let params = acc.gen_param();
    let proof = acc.prove_mem(&params, &x, &w, b"nonce");
    let bound = big(1).shl(593);
    assert!(proof.s_alpha.lt(&bound));
    assert!(bound.negate().lt(&proof.s_alpha));
}

#[test]
fn hash_to_prime_range() {
    for input in [&b"a"[..], b"b", b"eudi", b""] {
        let p = hash_to_prime(input).unwrap();
        assert!(p.to_bytes().last().unwrap() & 1 == 1);
        assert!(big(1).shl(192).lt(&p));
        assert!(p.lt(&big(1).shl(256)));
    }
}

#[test]
fn generated_primes_have_the_requested_size() {
    let p = BigNumber::safe_prime(64);
    assert!(!p.lt(&big(1).shl(63)));
    let q = BigNumber::prime(80);
    assert!(!q.lt(&big(1).shl(79)));
}

#[test]
fn is_one_ignores_the_sign() {
    assert!(big(1).is_one());
    assert!(big(1).negate().is_one());
    assert!(!big(2).is_one());
    assert!(!big(0).is_one());
}

#[test]
fn prove_mem_accepts_a_zero_witness() {
    let (acc, _phi) = small_accumulator();
    let x = hash_to_prime(b"holder").unwrap();
    let w = CLRSABWitness::Membership { u: big(0) };
    let params = acc.gen_param();
    let proof = acc.prove_mem(&params, &x, &w, b"nonce");
    assert_eq!(proof.c_u, big(0));
    let bound = big(1).shl(593);
    assert!(proof.s_alpha.lt(&bound));
    assert!(bound.negate().lt(&proof.s_alpha));
}

#[test]
fn residues_and_parameters_from_drawn_values() {
    assert_eq!(quadratic_residue_of(&big(7), &big(10)), big(9));
    assert_eq!(quadratic_residue_of(&big(12), &big(35)), big(4));
    let (acc, _phi) = small_accumulator();
    let params = acc.params_from(big(3), &big(5));
    assert_eq!(params.g, big(3));
    assert_eq!(params.h, big(243));
}
