//! Measurements of the CL-RSA-B accumulator in the mobile benchmarks.
use vstd::prelude::*;

use crate::cl_rsa_b::mem_proof::CLRSABMemProof;

verus! {

/// The byte lengths of the thirteen numbers of a proof, in field order.
pub open spec fn proof_field_lengths(p: &CLRSABMemProof) -> Seq<nat> {
    seq![
        p.c_u.bytes().len(),
        p.c_e.bytes().len(),
        p.c_r.bytes().len(),
        p.t_1.bytes().len(),
        p.t_2.bytes().len(),
        p.t_3.bytes().len(),
        p.t_4.bytes().len(),
        p.s_alpha.bytes().len(),
        p.s_beta.bytes().len(),
        p.s_delta.bytes().len(),
        p.s_epsilon.bytes().len(),
        p.s_zeta.bytes().len(),
        p.s_eta.bytes().len(),
    ]
}

/// Sum of a sequence of lengths.
pub open spec fn total_len(s: Seq<nat>) -> nat
    decreases s.len(),
{
    if s.len() == 0 {
        0
    } else {
        total_len(s.drop_last()) + s.last()
    }
}

/// Byte size of a `CLRSABMemProof`: the lengths of the magnitudes of its
/// thirteen numbers, as `to_bytes` encodes them.
pub fn proof_size(proof: &CLRSABMemProof) -> (r: usize)
    requires
        total_len(proof_field_lengths(proof)) <= usize::MAX,
    ensures
        r == total_len(proof_field_lengths(proof)),
{
    let fields = vec![
        &proof.c_u,
        &proof.c_e,
        &proof.c_r,
        &proof.t_1,
        &proof.t_2,
        &proof.t_3,
        &proof.t_4,
        &proof.s_alpha,
        &proof.s_beta,
        &proof.s_delta,
        &proof.s_epsilon,
        &proof.s_zeta,
        &proof.s_eta,
    ];
    let ghost lens = proof_field_lengths(proof);
    assert(fields@.map_values(|b: &crate::bignum::BigNumber| b.bytes().len()) =~= lens);
    let mut total: usize = 0;
    let n = fields.len();
    for i in 0..n
        invariant
            n == fields.len(),
            n == 13,
            lens == proof_field_lengths(proof),
            fields@.map_values(|b: &crate::bignum::BigNumber| b.bytes().len()) == lens,
            total_len(lens) <= usize::MAX,
            total == total_len(lens.take(i as int)),
    {
        proof {
            lemma_total_len_prefix(lens, i as int + 1);
            assert(lens.take(i + 1).drop_last() == lens.take(i as int));
        }
        let len = fields[i].to_bytes().len();
        assert(len == lens[i as int]);
        total = total + len;
    }
    assert(lens.take(n as int) == lens);
    total
}

/// A prefix of a sequence of lengths sums to at most the whole.
proof fn lemma_total_len_prefix(s: Seq<nat>, k: int)
    requires
        0 <= k <= s.len(),
    ensures
        total_len(s.take(k)) <= total_len(s),
    decreases s.len(),
{
    if k < s.len() {
        assert(s.drop_last().take(k) == s.take(k));
        lemma_total_len_prefix(s.drop_last(), k);
    } else {
        assert(s.take(k) == s);
    }
}

/// The size of a proof is the sum of the magnitude lengths of all thirteen
/// of its numbers: what `proof_size` returns.
pub proof fn lemma_proof_size_sums_all_fields(p: &CLRSABMemProof)
    ensures
        total_len(proof_field_lengths(p)) == p.c_u.bytes().len() + p.c_e.bytes().len()
            + p.c_r.bytes().len() + p.t_1.bytes().len() + p.t_2.bytes().len() + p.t_3.bytes().len()
            + p.t_4.bytes().len() + p.s_alpha.bytes().len() + p.s_beta.bytes().len()
            + p.s_delta.bytes().len() + p.s_epsilon.bytes().len() + p.s_zeta.bytes().len()
            + p.s_eta.bytes().len(),
{
    let s = proof_field_lengths(p);
    reveal_with_fuel(total_len, 14);
    assert(s.len() == 13);
}

} // verus!
