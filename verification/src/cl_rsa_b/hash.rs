//! Hashing elements to primes, and the Fiat-Shamir challenge of the proofs.
use vstd::prelude::*;

use vstd::arithmetic::power2::pow2;
use crate::bignum::{BigNumber, be_nat, canonical_bytes, lemma_be_nat_bound, lemma_be_nat_prefix, lemma_be_nat_last};
use crate::modarith::{abs, is_prime_spec};

verus! {

/// What `blake3::hash` returns for `input`.
pub uninterp spec fn blake3_hash(input: Seq<u8>) -> Seq<u8>;

/// The first 32 bytes of `blake3`'s extendable output for `input`.
pub uninterp spec fn blake3_xof_32(input: Seq<u8>) -> Seq<u8>;

/// `blake3::hash`: the 32-byte BLAKE3 digest of `input`.
#[verifier::external_body]
fn blake3_digest(input: &[u8]) -> (r: Vec<u8>)
    ensures
        r@ == blake3_hash(input@),
        r@.len() == 32,
{
    let h: [u8; 32] = blake3::hash(input).into();
    h.to_vec()
}

/// `blake3::Hasher::update` then `finalize_xof` and `OutputReader::fill`:
/// the first 32 bytes of the extendable output for `input`.
#[verifier::external_body]
fn blake3_xof_digest(input: &[u8]) -> (r: Vec<u8>)
    ensures
        r@ == blake3_xof_32(input@),
        r@.len() == 32,
{
    let mut hasher = blake3::Hasher::new();
    hasher.update(input);
    let mut out = [0u8; 32];
    hasher.finalize_xof().fill(&mut out);
    out.to_vec()
}

/// Big-endian encoding of `c` in eight bytes.
pub open spec fn u64_be_bytes(c: u64) -> Seq<u8> {
    seq![
        (c >> 56u64) as u8,
        (c >> 48u64) as u8,
        (c >> 40u64) as u8,
        (c >> 32u64) as u8,
        (c >> 24u64) as u8,
        (c >> 16u64) as u8,
        (c >> 8u64) as u8,
        c as u8,
    ]
}

/// Appends the big-endian encoding of `c` to `v`.
pub fn push_u64_be(v: &mut Vec<u8>, c: u64)
    ensures
        final(v)@ == old(v)@ + u64_be_bytes(c),
{
    v.push((c >> 56u64) as u8);
    v.push((c >> 48u64) as u8);
    v.push((c >> 40u64) as u8);
    v.push((c >> 32u64) as u8);
    v.push((c >> 24u64) as u8);
    v.push((c >> 16u64) as u8);
    v.push((c >> 8u64) as u8);
    v.push(c as u8);
    assert(v@ =~= old(v)@ + u64_be_bytes(c));
}

/// A digest made odd and at least `2^192`: bits 0 of its last byte and of
/// byte 7 are set.
pub open spec fn mark_candidate(h: Seq<u8>) -> Seq<u8> {
    h.update(31, h[31] | 1u8).update(7, h[7] | 1u8)
}

/// The bytes hashed in round `k` (from one) of `hash_to_prime`: the input and
/// the counter at first, then the previous candidate and the counter.
pub open spec fn h2p_round_input(input: Seq<u8>, k: u64) -> Seq<u8>
    decreases k, 0int,
{
    if k <= 1 {
        input + u64_be_bytes(1)
    } else {
        h2p_candidate(input, (k - 1) as u64) + u64_be_bytes(k)
    }
}

/// The candidate (big-endian bytes) that round `k` of `hash_to_prime` tests.
pub open spec fn h2p_candidate(input: Seq<u8>, k: u64) -> Seq<u8>
    decreases k, 1int,
{
    mark_candidate(blake3_hash(h2p_round_input(input, k)))
}

/// The candidates of `hash_to_prime` form the marked hash chain: the first
/// is the marked BLAKE3 digest of the input followed by the counter 1, and
/// candidate `k >= 2` is the marked digest of candidate `k - 1` followed by
/// the counter `k`.
pub proof fn lemma_candidate_chain(input: Seq<u8>, k: u64)
    requires
        k >= 1,
    ensures
        k == 1 ==> h2p_candidate(input, k) == mark_candidate(
            blake3_hash(input + u64_be_bytes(1)),
        ),
        k >= 2 ==> h2p_candidate(input, k) == mark_candidate(
            blake3_hash(h2p_candidate(input, (k - 1) as u64) + u64_be_bytes(k)),
        ),
{
}

/// A marked 32-byte digest is odd and lies in `[2^192, 2^256)`.
proof fn lemma_candidate_range(c: Seq<u8>)
    requires
        c.len() == 32,
        c[31] & 1u8 == 1u8,
        c[7] & 1u8 == 1u8,
    ensures
        be_nat(c) % 2 == 1,
        pow2(192) <= be_nat(c) < pow2(256),
{
    lemma_be_nat_bound(c);
    lemma_be_nat_last(c);
    let l = c[31];
    assert(l % 2 == 1) by (bit_vector)
        requires
            l & 1u8 == 1u8,
    ;
    let t = c.take(8);
    lemma_be_nat_prefix(c, 8);
    lemma_be_nat_last(t);
    let b = c[7];
    assert(b >= 1) by (bit_vector)
        requires
            b & 1u8 == 1u8,
    ;
    assert(t.last() == b);
    assert(8 * (c.len() - 8) as nat == 192);
    let p = pow2(192);
    let a = be_nat(t);
    assert(a * p >= p) by (nonlinear_arith)
        requires
            a >= 1,
            p >= 0,
    ;
}

/// The value of the candidate of round `k`.
pub open spec fn candidate_value(input: Seq<u8>, k: u64) -> int {
    be_nat(h2p_candidate(input, k)) as int
}

/// Hashes `input` to a probable prime: the first candidate of the hash chain
/// that the primality test accepts.  `None` only if the round counter runs
/// out, every candidate being composite.
pub fn hash_to_prime(input: &[u8]) -> (r: Option<BigNumber>)
    ensures
        r matches Some(p) ==> p@ % 2 == 1 && pow2(192) <= p@ < pow2(256),
        r matches Some(p) ==> exists|k: u64|
            1 <= k && p@ == #[trigger] candidate_value(input@, k) && forall|j: u64|
                1 <= j < k ==> !is_prime_spec(#[trigger] candidate_value(input@, j)),
        r is None ==> forall|j: u64|
            1 <= j ==> !is_prime_spec(#[trigger] candidate_value(input@, j)),
{
    let mut data: Vec<u8> = Vec::new();
    let n = input.len();
    for i in 0..n
        invariant
            n == input@.len(),
            data@ == input@.take(i as int),
    {
        data.push(input[i]);
        assert(data@ == input@.take(i + 1));
    }
    assert(input@.take(n as int) == input@);
    let mut counter: u64 = 1;
    push_u64_be(&mut data, counter);
    loop
        invariant
            1 <= counter,
            data@ == h2p_round_input(input@, counter),
            forall|j: u64|
                1 <= j < counter ==> !is_prime_spec(#[trigger] candidate_value(input@, j)),
        decreases u64::MAX - counter,
    {
        let mut hash = blake3_digest(data.as_slice());
        let h31 = hash[31];
        let last = h31 | 1u8;
        hash.set(31, last);
        let h7 = hash[7];
        let seventh = h7 | 1u8;
        hash.set(7, seventh);
        assert(last & 1u8 == 1u8) by (bit_vector)
            requires
                last == h31 | 1u8,
        ;
        assert(seventh & 1u8 == 1u8) by (bit_vector)
            requires
                seventh == h7 | 1u8,
        ;
        assert(hash@ == h2p_candidate(input@, counter));
        let prime = BigNumber::from_slice(hash.as_slice());
        assert(prime@ == candidate_value(input@, counter));
        if prime.is_prime() {
            proof {
                lemma_candidate_range(hash@);
            }
            return Some(prime);
        }
        if counter == u64::MAX {
            assert forall|j: u64| 1 <= j implies !is_prime_spec(
                #[trigger] candidate_value(input@, j),
            ) by {
                if j < counter {
                } else {
                    assert(j == counter);
                }
            }
            return None;
        }
        counter = counter + 1;
        push_u64_be(&mut hash, counter);
        data = hash;
    }
}

/// The bytes hashed for a Fiat-Shamir challenge: the magnitudes of `g`, `h`
/// and of every number of `nums`, then `extra`.
pub open spec fn challenge_transcript(g: int, h: int, nums: Seq<int>, extra: Seq<u8>) -> Seq<u8> {
    canonical_bytes(abs(g) as nat) + canonical_bytes(abs(h) as nat) + nums_bytes(nums) + extra
}

/// The magnitudes of `nums`, concatenated.
pub open spec fn nums_bytes(nums: Seq<int>) -> Seq<u8>
    decreases nums.len(),
{
    if nums.len() == 0 {
        Seq::empty()
    } else {
        nums_bytes(nums.drop_last()) + canonical_bytes(abs(nums.last()) as nat)
    }
}

/// The Fiat-Shamir challenge over `g`, `h`, `nums` and `extra`.
pub open spec fn challenge_value(g: int, h: int, nums: Seq<int>, extra: Seq<u8>) -> int {
    be_nat(blake3_xof_32(challenge_transcript(g, h, nums, extra))) as int
}

/// Hashes the two generators, the numbers and `extra` to a 256-bit number.
pub(crate) fn hash_to_k_bits(
    g: &BigNumber,
    h: &BigNumber,
    nums: &Vec<&BigNumber>,
    extra: &[u8],
) -> (r: BigNumber)
    ensures
        r@ == challenge_value(g@, h@, nums@.map_values(|b: &BigNumber| b@), extra@),
        0 <= r@ < pow2(256),
{
    let ghost vs = nums@.map_values(|b: &BigNumber| b@);
    let mut data = g.to_bytes();
    let hb = h.to_bytes();
    append_bytes(&mut data, hb.as_slice());
    let ghost head = data@;
    let n = nums.len();
    for i in 0..n
        invariant
            n == nums.len(),
            vs == nums@.map_values(|b: &BigNumber| b@),
            data@ == head + nums_bytes(vs.take(i as int)),
    {
        let nb = nums[i].to_bytes();
        append_bytes(&mut data, nb.as_slice());
        assert(vs.take(i + 1).drop_last() == vs.take(i as int));
    }
    assert(vs.take(n as int) == vs);
    append_bytes(&mut data, extra);
    let digest = blake3_xof_digest(data.as_slice());
    assert(data@ == challenge_transcript(g@, h@, vs, extra@));
    proof {
        lemma_be_nat_bound(digest@);
    }
    BigNumber::from_slice(digest.as_slice())
}

/// Appends the bytes of `b` to `v`.
fn append_bytes(v: &mut Vec<u8>, b: &[u8])
    ensures
        final(v)@ == old(v)@ + b@,
{
    let n = b.len();
    for i in 0..n
        invariant
            n == b@.len(),
            v@ == old(v)@ + b@.take(i as int),
    {
        v.push(b[i]);
        assert(v@ == old(v)@ + b@.take(i + 1));
    }
    assert(b@.take(n as int) == b@);
}

} // verus!
