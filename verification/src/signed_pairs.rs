//! Signed pairs: the revocation list is published as the gaps between revoked
//! identifiers, each gap signed by the issuer.  A holder's update scans the
//! list for the gap that contains its identifier and checks its signature.
use vstd::prelude::*;

use crate::cl_rsa_b::hash::u64_be_bytes;
use p256::ecdsa::signature::{Signer, Verifier};

verus! {

/// Lower bound of the holder's gap in the BBS credential.
pub const LOWER_ID: u64 = 1_000;

/// Upper bound of the holder's gap in the BBS credential.
pub const UPPER_ID: u64 = 2_000;

/// The holder's revocation handle in the BBS credential.
pub const REV_HANDLE_VAL: u64 = 1_500;

/// Epoch of the ECDSA-signed revocation list.
pub const ECDSA_EPOCH: u64 = 1025;

/// `uid` lies in the gap `(lower, upper)`, bounds included.
pub open spec fn in_gap(gap: (u64, u64), uid: u64) -> bool {
    gap.0 <= uid && uid <= gap.1
}

/// `r` is the index of the first gap of `gaps` that contains `uid`, or `None`
/// when no gap contains it.
pub open spec fn is_first_gap(gaps: Seq<(u64, u64)>, uid: u64, r: Option<usize>) -> bool {
    match r {
        Some(i) => {
            &&& i < gaps.len()
            &&& in_gap(gaps[i as int], uid)
            &&& forall|j: int| 0 <= j < i ==> !in_gap(#[trigger] gaps[j], uid)
        },
        None => forall|j: int| 0 <= j < gaps.len() ==> !in_gap(#[trigger] gaps[j], uid),
    }
}

/// The index of the first gap that contains `uid`.
pub fn find_gap(gaps: &Vec<(u64, u64)>, uid: u64) -> (r: Option<usize>)
    ensures
        is_first_gap(gaps@, uid, r),
{
    let n = gaps.len();
    for i in 0..n
        invariant
            n == gaps.len(),
            forall|j: int| 0 <= j < i ==> !in_gap(#[trigger] gaps@[j], uid),
    {
        let (lo, hi) = gaps[i];
        if lo <= uid && uid <= hi {
            return Some(i);
        }
    }
    None
}

/// The range-proof statement `lower < handle < upper`, as two differences
/// that must be nonnegative: `handle - lower - 1` and `upper - handle - 1`.
pub fn gap_differences(lower: u64, handle: u64, upper: u64) -> (r: (u64, u64))
    requires
        lower < handle < upper,
    ensures
        r.0 == handle - lower - 1,
        r.1 == upper - handle - 1,
{
    (handle - lower - 1, upper - handle - 1)
}

/// The BBS revocation list of `n` gaps in which the holder's gap is the one at
/// position `n / 2`: unit gaps `(2i, 2i + 1)` below it, the holder's gap
/// `(2h, 2h + 2)` with `h = n / 2`, and unit gaps above it.
pub open spec fn bbs_gap(n: nat, i: nat) -> (u64, u64) {
    let h = n / 2;
    if i < h {
        ((2 * i) as u64, (2 * i + 1) as u64)
    } else if i == h {
        ((2 * h) as u64, (2 * h + 2) as u64)
    } else {
        ((2 * h + 2 + 1 + (i - h - 1) * 2) as u64, (2 * h + 2 + 2 + (i - h - 1) * 2) as u64)
    }
}

/// The holder's identifier in the BBS revocation list of `n` gaps.
pub open spec fn bbs_uid(n: nat) -> u64 {
    (2 * (n / 2) + 1) as u64
}

/// The revocation list and holder identifier of the BBS holder-update
/// benchmark with `n` gaps.
pub fn bbs_gap_list(n: usize) -> (r: (Vec<(u64, u64)>, u64))
    requires
        1 <= n <= 0x1000_0000_0000,
    ensures
        r.0@.len() == n,
        forall|i: int| 0 <= i < n ==> #[trigger] r.0@[i] == bbs_gap(n as nat, i as nat),
        r.1 == bbs_uid(n as nat),
{
    let half = n / 2;
    let mut gaps: Vec<(u64, u64)> = Vec::new();
    let mut i: u64 = 0;
    while i < half as u64
        invariant
            half == n / 2,
            n <= 0x1000_0000_0000,
            i <= half,
            gaps@.len() == i,
            forall|j: int| 0 <= j < i ==> #[trigger] gaps@[j] == bbs_gap(n as nat, j as nat),
        decreases half - i,
    {
        gaps.push((i * 2, i * 2 + 1));
        i = i + 1;
    }
    let target_lo = (half as u64) * 2;
    let target_hi = target_lo + 2;
    let uid = target_lo + 1;
    gaps.push((target_lo, target_hi));
    let rest = (n - half - 1) as u64;
    let mut k: u64 = 0;
    while k < rest
        invariant
            half == n / 2,
            n <= 0x1000_0000_0000,
            rest == n - half - 1,
            target_hi == 2 * half + 2,
            k <= rest,
            gaps@.len() == half + 1 + k,
            forall|j: int| 0 <= j < half + 1 + k ==> #[trigger] gaps@[j] == bbs_gap(n as nat, j as nat),
        decreases rest - k,
    {
        gaps.push((target_hi + 1 + k * 2, target_hi + 2 + k * 2));
        k = k + 1;
    }
    (gaps, uid)
}

/// The `u64` whose big-endian encoding is the first eight bytes of `s`.
pub open spec fn u64_from_be(s: Seq<u8>) -> u64 {
    ((s[0] as u64) << 56u64) | ((s[1] as u64) << 48u64) | ((s[2] as u64) << 40u64) | ((
    s[3] as u64) << 32u64) | ((s[4] as u64) << 24u64) | ((s[5] as u64) << 16u64) | ((
    s[6] as u64) << 8u64) | (s[7] as u64)
}

/// Decoding the big-endian encoding of `c` gives `c` back.
pub proof fn lemma_u64_be_round_trip(c: u64)
    ensures
        u64_be_bytes(c).len() == 8,
        u64_from_be(u64_be_bytes(c)) == c,
{
    let b = u64_be_bytes(c);
    let (b0, b1, b2, b3, b4, b5, b6, b7) = (b[0], b[1], b[2], b[3], b[4], b[5], b[6], b[7]);
    assert(((b0 as u64) << 56u64) | ((b1 as u64) << 48u64) | ((b2 as u64) << 40u64) | ((
    b3 as u64) << 32u64) | ((b4 as u64) << 24u64) | ((b5 as u64) << 16u64) | ((b6 as u64)
        << 8u64) | (b7 as u64) == c) by (bit_vector)
        requires
            b0 == (c >> 56u64) as u8,
            b1 == (c >> 48u64) as u8,
            b2 == (c >> 40u64) as u8,
            b3 == (c >> 32u64) as u8,
            b4 == (c >> 24u64) as u8,
            b5 == (c >> 16u64) as u8,
            b6 == (c >> 8u64) as u8,
            b7 == c as u8,
    ;
}

/// A gap message decodes to its epoch and bounds, so two gaps have the same
/// message exactly when they have the same epoch and bounds.
pub proof fn lemma_gap_message_decodes(e: u64, l: u64, u: u64, e2: u64, l2: u64, u2: u64)
    ensures
        ({
            let m = u64_be_bytes(e) + u64_be_bytes(l) + u64_be_bytes(u);
            &&& m.len() == 24
            &&& u64_from_be(m.subrange(0, 8)) == e
            &&& u64_from_be(m.subrange(8, 16)) == l
            &&& u64_from_be(m.subrange(16, 24)) == u
        }),
        (u64_be_bytes(e) + u64_be_bytes(l) + u64_be_bytes(u) == u64_be_bytes(e2) + u64_be_bytes(
            l2,
        ) + u64_be_bytes(u2)) <==> (e == e2 && l == l2 && u == u2),
{
    lemma_u64_be_round_trip(e);
    lemma_u64_be_round_trip(l);
    lemma_u64_be_round_trip(u);
    lemma_u64_be_round_trip(e2);
    lemma_u64_be_round_trip(l2);
    lemma_u64_be_round_trip(u2);
    let m = u64_be_bytes(e) + u64_be_bytes(l) + u64_be_bytes(u);
    let m2 = u64_be_bytes(e2) + u64_be_bytes(l2) + u64_be_bytes(u2);
    assert(m.subrange(0, 8) =~= u64_be_bytes(e));
    assert(m.subrange(8, 16) =~= u64_be_bytes(l));
    assert(m.subrange(16, 24) =~= u64_be_bytes(u));
    assert(m2.subrange(0, 8) =~= u64_be_bytes(e2));
    assert(m2.subrange(8, 16) =~= u64_be_bytes(l2));
    assert(m2.subrange(16, 24) =~= u64_be_bytes(u2));
}

/// Encode a gap as the 24-byte message that was signed:
/// epoch ‖ lower ‖ upper, each big-endian.
pub fn encode_gap(epoch: u64, lower: u64, upper: u64) -> (r: [u8; 24])
    ensures
        r@ == u64_be_bytes(epoch) + u64_be_bytes(lower) + u64_be_bytes(upper),
{
    let msg = [
        (epoch >> 56u64) as u8,
        (epoch >> 48u64) as u8,
        (epoch >> 40u64) as u8,
        (epoch >> 32u64) as u8,
        (epoch >> 24u64) as u8,
        (epoch >> 16u64) as u8,
        (epoch >> 8u64) as u8,
        epoch as u8,
        (lower >> 56u64) as u8,
        (lower >> 48u64) as u8,
        (lower >> 40u64) as u8,
        (lower >> 32u64) as u8,
        (lower >> 24u64) as u8,
        (lower >> 16u64) as u8,
        (lower >> 8u64) as u8,
        lower as u8,
        (upper >> 56u64) as u8,
        (upper >> 48u64) as u8,
        (upper >> 40u64) as u8,
        (upper >> 32u64) as u8,
        (upper >> 24u64) as u8,
        (upper >> 16u64) as u8,
        (upper >> 8u64) as u8,
        upper as u8,
    ];
    assert(msg@ =~= u64_be_bytes(epoch) + u64_be_bytes(lower) + u64_be_bytes(upper));
    msg
}

/// The public key (SEC1 encoding) that `p256` derives from the secret scalar
/// `sk`, or `None` when `sk` is not a valid secret key.
pub uninterp spec fn p256_verifying_key(sk: Seq<u8>) -> Option<Seq<u8>>;

/// The deterministic (RFC 6979) `p256` ECDSA signature of `msg` under `sk`, or
/// `None` when `sk` is not a valid secret key or signing fails.
pub uninterp spec fn p256_signature(sk: Seq<u8>, msg: Seq<u8>) -> Option<Seq<u8>>;

/// Whether `p256` accepts `sig` as a signature of `msg` under the SEC1 key `vk`.
pub uninterp spec fn p256_accepts(vk: Seq<u8>, msg: Seq<u8>, sig: Seq<u8>) -> bool;

/// The bytes of an optional byte vector.
pub open spec fn opt_bytes(v: Option<Vec<u8>>) -> Option<Seq<u8>> {
    match v {
        Some(b) => Some(b@),
        None => None,
    }
}

/// `p256::ecdsa::SigningKey::from_slice`, then `verifying_key` and
/// `to_sec1_bytes`.
#[verifier::external_body]
fn ecdsa_verifying_key(sk: &[u8]) -> (r: Option<Vec<u8>>)
    ensures
        opt_bytes(r) == p256_verifying_key(sk@),
{
    match p256::ecdsa::SigningKey::from_slice(sk) {
        Ok(k) => Some(k.verifying_key().to_sec1_bytes().to_vec()),
        Err(_) => None,
    }
}

/// `p256::ecdsa::SigningKey::from_slice`, then `Signer::try_sign` and
/// `Signature::to_bytes`.
#[verifier::external_body]
fn ecdsa_sign(sk: &[u8], msg: &[u8]) -> (r: Option<Vec<u8>>)
    ensures
        opt_bytes(r) == p256_signature(sk@, msg@),
{
    match p256::ecdsa::SigningKey::from_slice(sk) {
        Ok(k) => match Signer::<p256::ecdsa::Signature>::try_sign(&k, msg) {
            Ok(s) => Some(s.to_bytes().to_vec()),
            Err(_) => None,
        },
        Err(_) => None,
    }
}

/// `p256::ecdsa::VerifyingKey::from_sec1_bytes`, `Signature::from_slice`, then
/// `Verifier::verify`; a key or signature that does not parse is rejected.
/// A signature that `ecdsa_sign` made with a secret key is accepted under the
/// key that `ecdsa_verifying_key` derives from it (the correctness of ECDSA:
/// `verify_prehashed` recomputes `r` from `s^-1 (z G + r Q)`, which is the
/// signer's `k G`).
#[verifier::external_body]
fn ecdsa_verify(vk: &[u8], msg: &[u8], sig: &[u8]) -> (r: bool)
    ensures
        r == p256_accepts(vk@, msg@, sig@),
        forall|sk: Seq<u8>|
            p256_verifying_key(sk) == Some(vk@) && #[trigger] p256_signature(sk, msg@) == Some(
                sig@,
            ) ==> r,
{
    match (p256::ecdsa::VerifyingKey::from_sec1_bytes(vk), p256::ecdsa::Signature::from_slice(sig)) {
        (Ok(k), Ok(s)) => k.verify(msg, &s).is_ok(),
        _ => false,
    }
}

/// A gap of the ECDSA revocation list with its signature over
/// epoch ‖ lower ‖ upper.
#[derive(Debug)]
pub struct SignedGap {
    pub lower: u64,
    pub upper: u64,
    pub epoch: u64,
    pub sig: Vec<u8>,
}

/// The state of the ECDSA holder-update benchmark: the issuer's key, the
/// signed list and the holder's identifier.
#[derive(Debug)]
pub struct EcdsaSetup {
    pub vk: Vec<u8>,
    pub gaps: Vec<SignedGap>,
    pub uid: u64,
}

/// The bounds of the signed gaps.
pub open spec fn gap_bounds(gaps: Seq<SignedGap>) -> Seq<(u64, u64)> {
    gaps.map_values(|g: SignedGap| (g.lower, g.upper))
}

/// The message signed for a gap: epoch ‖ lower ‖ upper.
pub open spec fn gap_message(g: SignedGap) -> Seq<u8> {
    u64_be_bytes(g.epoch) + u64_be_bytes(g.lower) + u64_be_bytes(g.upper)
}

/// The key of `s` is the one derived from `sk`, and every gap carries the
/// signature under `sk` of its message.
pub open spec fn gaps_signed_under(s: &EcdsaSetup, sk: Seq<u8>) -> bool {
    &&& Some(s.vk@) == p256_verifying_key(sk)
    &&& forall|i: int|
        0 <= i < s.gaps@.len() ==> Some((#[trigger] s.gaps@[i]).sig@) == p256_signature(
            sk,
            gap_message(s.gaps@[i]),
        )
}

/// What `build_ecdsa_setup(n, sk)` returns: the gaps `(10i, 10i + 9)` of epoch
/// `ECDSA_EPOCH`, signed under `sk`, and the holder identifier
/// `10 * (n / 2) + 4`.
pub open spec fn ecdsa_setup_for(s: &EcdsaSetup, n: nat, sk: Seq<u8>) -> bool {
    &&& s.gaps@.len() == n
    &&& s.uid == 10 * (n / 2) + 4
    &&& forall|i: int|
        0 <= i < n ==> {
            &&& (#[trigger] s.gaps@[i]).lower == 10 * i
            &&& s.gaps@[i].upper == 10 * i + 9
            &&& s.gaps@[i].epoch == ECDSA_EPOCH
        }
    &&& gaps_signed_under(s, sk)
}

/// The ECDSA revocation list of `n` gaps `(10i, 10i + 9)` signed with `sk` in
/// epoch `ECDSA_EPOCH`, and the holder identifier `10 * (n / 2) + 4`; `None`
/// when `sk` is not a valid key.
pub fn build_ecdsa_setup(n: usize, sk: &[u8]) -> (r: Option<EcdsaSetup>)
    requires
        n <= 0x1000_0000_0000,
    ensures
        r is None <==> (p256_verifying_key(sk@) is None || (n > 0 && exists|i: int|
            0 <= i < n && #[trigger] p256_signature(
                sk@,
                u64_be_bytes(ECDSA_EPOCH) + u64_be_bytes((10 * i) as u64) + u64_be_bytes(
                    (10 * i + 9) as u64,
                ),
            ) is None)),
        r matches Some(s) ==> ecdsa_setup_for(&s, n as nat, sk@),
{
    let vk = match ecdsa_verifying_key(sk) {
        Some(vk) => vk,
        None => return None,
    };
    let epoch = ECDSA_EPOCH;
    let half = n / 2;
    let mut gaps: Vec<SignedGap> = Vec::new();
    let mut i: usize = 0;
    while i < n
        invariant
            n <= 0x1000_0000_0000,
            epoch == ECDSA_EPOCH,
            i <= n,
            gaps@.len() == i,
            p256_verifying_key(sk@) is Some,
            forall|j: int|
                0 <= j < i ==> {
                    &&& (#[trigger] gaps@[j]).lower == 10 * j
                    &&& gaps@[j].upper == 10 * j + 9
                    &&& gaps@[j].epoch == ECDSA_EPOCH
                    &&& Some(gaps@[j].sig@) == p256_signature(
                        sk@,
                        u64_be_bytes(ECDSA_EPOCH) + u64_be_bytes(gaps@[j].lower) + u64_be_bytes(
                            gaps@[j].upper,
                        ),
                    )
                },
        decreases n - i,
    {
        let lower = (i as u64) * 10;
        let upper = lower + 9;
        assert(lower == 10 * i && upper == 10 * i + 9);
        assert(lower == (10 * i) as u64 && upper == (10 * i + 9) as u64);
        let msg = encode_gap(epoch, lower, upper);
        let msg_bytes = msg.as_slice();
        proof {
            broadcast use vstd::array::axiom_spec_array_as_slice;
        }
        assert(msg_bytes@ == u64_be_bytes(ECDSA_EPOCH) + u64_be_bytes((10 * i) as u64) + u64_be_bytes(
            (10 * i + 9) as u64,
        ));
        let sig_opt = ecdsa_sign(sk, msg_bytes);
        if sig_opt.is_none() {
            return None;
        }
        let sig = sig_opt.unwrap();
        let ghost g0 = gaps@;
        gaps.push(SignedGap { lower, upper, epoch, sig });
        assert(gaps@[i as int].lower == lower);
        assert(forall|j: int| 0 <= j < i ==> gaps@[j] == g0[j]);
        i = i + 1;
    }
    let uid = (half as u64) * 10 + 4;
    let r = EcdsaSetup { vk, gaps, uid };
    assert forall|i: int| 0 <= i < n implies !(#[trigger] p256_signature(
        sk@,
        u64_be_bytes(ECDSA_EPOCH) + u64_be_bytes((10 * i) as u64) + u64_be_bytes(
            (10 * i + 9) as u64,
        ),
    ) is None) by {
        assert(r.gaps@[i].lower == 10 * i);
        assert(r.gaps@[i].lower == (10 * i) as u64);
        assert(r.gaps@[i].upper == (10 * i + 9) as u64);
    }
    assert(gaps_signed_under(&r, sk@)) by {
        assert forall|i: int| 0 <= i < r.gaps@.len() implies Some((#[trigger] r.gaps@[i]).sig@)
            == p256_signature(sk@, gap_message(r.gaps@[i])) by {
            assert(gap_message(r.gaps@[i]) == u64_be_bytes(ECDSA_EPOCH) + u64_be_bytes(
                r.gaps@[i].lower,
            ) + u64_be_bytes(r.gaps@[i].upper));
        }
    }
    Some(r)
}

/// The ECDSA holder update: find the gap that contains the holder's
/// identifier and check its signature.  Returns the proof size (none) and the
/// outcome.
pub fn ecdsa_holder_update(s: &EcdsaSetup) -> (r: (usize, bool))
    ensures
        r.0 == 0,
        ({
            let bounds = gap_bounds(s.gaps@);
            match choose_first_gap(bounds, s.uid) {
                None => !r.1,
                Some(i) => r.1 == p256_accepts(
                    s.vk@,
                    gap_message(s.gaps@[i as int]),
                    s.gaps@[i as int].sig@,
                ),
            }
        }),
        forall|sk: Seq<u8>|
            #[trigger] gaps_signed_under(s, sk) ==> (r.1 <==> choose_first_gap(
                gap_bounds(s.gaps@),
                s.uid,
            ) is Some),
{
    let n = s.gaps.len();
    let ghost bounds = gap_bounds(s.gaps@);
    for i in 0..n
        invariant
            n == s.gaps.len(),
            bounds == gap_bounds(s.gaps@),
            forall|j: int| 0 <= j < i ==> !in_gap(#[trigger] bounds[j], s.uid),
    {
        let g = &s.gaps[i];
        if g.lower <= s.uid && s.uid <= g.upper {
            proof {
                lemma_first_gap_unique(bounds, s.uid, Some(i));
            }
            let msg = encode_gap(g.epoch, g.lower, g.upper);
            let msg_bytes = msg.as_slice();
            proof {
                broadcast use vstd::array::axiom_spec_array_as_slice;
            }
            let ok = ecdsa_verify(s.vk.as_slice(), msg_bytes, g.sig.as_slice());
            proof {
                assert(*g == s.gaps@[i as int]);
                assert(msg_bytes@ == gap_message(*g));
                assert forall|sk: Seq<u8>| #[trigger] gaps_signed_under(s, sk) implies ok by {
                    assert(Some(s.gaps@[i as int].sig@) == p256_signature(sk, gap_message(s.gaps@[i as int])));
                    assert(p256_signature(sk, msg_bytes@) == Some(g.sig@));
                }
            }
            return (0, ok);
        }
    }
    proof {
        lemma_first_gap_unique(bounds, s.uid, None);
    }
    (0, false)
}

/// The index of the first gap of `gaps` that contains `uid`, if any.
pub open spec fn choose_first_gap(gaps: Seq<(u64, u64)>, uid: u64) -> Option<usize> {
    if exists|r: Option<usize>| is_first_gap(gaps, uid, r) {
        choose|r: Option<usize>| is_first_gap(gaps, uid, r)
    } else {
        None
    }
}

/// There is one first gap.
pub proof fn lemma_first_gap_unique(gaps: Seq<(u64, u64)>, uid: u64, r: Option<usize>)
    requires
        is_first_gap(gaps, uid, r),
    ensures
        choose_first_gap(gaps, uid) == r,
{
    let c = choose|c: Option<usize>| is_first_gap(gaps, uid, c);
    assert(is_first_gap(gaps, uid, c));
    match (c, r) {
        (Some(i), Some(j)) => {
            if i < j {
                assert(!in_gap(gaps[i as int], uid));
            } else if j < i {
                assert(!in_gap(gaps[j as int], uid));
            }
        },
        (Some(i), None) => {
            assert(!in_gap(gaps[i as int], uid));
        },
        (None, Some(j)) => {
            assert(!in_gap(gaps[j as int], uid));
        },
        (None, None) => {},
    }
}

/// A gap contains an identifier exactly when the identifier lies between its
/// bounds, both included: if `lower <= uid <= upper` for gap `i` and for no
/// earlier gap, `find_gap` returns `Some(i)`; if for no gap, `None`.
pub proof fn lemma_gap_bounds_included(gaps: Seq<(u64, u64)>, uid: u64, i: usize)
    requires
        i < gaps.len(),
    ensures
        (gaps[i as int].0 <= uid && uid <= gaps[i as int].1 && forall|j: int|
            0 <= j < i ==> !(gaps[j].0 <= uid && uid <= gaps[j].1)) ==> forall|r: Option<usize>|
            #[trigger] is_first_gap(gaps, uid, r) <==> r == Some(i),
        (forall|j: int| 0 <= j < gaps.len() ==> !(gaps[j].0 <= uid && uid <= gaps[j].1))
            ==> forall|r: Option<usize>| #[trigger] is_first_gap(gaps, uid, r) <==> r is None,
{
    if gaps[i as int].0 <= uid && uid <= gaps[i as int].1 && forall|j: int|
        0 <= j < i ==> !(gaps[j].0 <= uid && uid <= gaps[j].1) {
        assert(is_first_gap(gaps, uid, Some(i)));
        lemma_first_gap_unique(gaps, uid, Some(i));
        assert forall|r: Option<usize>| #[trigger] is_first_gap(gaps, uid, r) implies r == Some(
            i,
        ) by {
            lemma_first_gap_unique(gaps, uid, r);
        }
    }
    if forall|j: int| 0 <= j < gaps.len() ==> !(gaps[j].0 <= uid && uid <= gaps[j].1) {
        assert(is_first_gap(gaps, uid, None));
        lemma_first_gap_unique(gaps, uid, None);
        assert forall|r: Option<usize>| #[trigger] is_first_gap(gaps, uid, r) implies r is None by {
            lemma_first_gap_unique(gaps, uid, r);
        }
    }
}

/// Every identifier below `10 * n` lies in the gap `(10i, 10i + 9)` of the
/// ECDSA revocation list of `n` gaps with `i = uid / 10`, bounds included.
pub proof fn lemma_ecdsa_gap_of_every_uid(n: usize, uid: u64)
    requires
        n <= 0x1000_0000_0000,
        uid < 10 * n,
    ensures
        choose_first_gap(
            Seq::new(n as nat, |i: int| ((10 * i) as u64, (10 * i + 9) as u64)),
            uid,
        ) == Some((uid / 10) as usize),
{
    let s = Seq::new(n as nat, |i: int| ((10 * i) as u64, (10 * i + 9) as u64));
    let h = (uid / 10) as int;
    assert(s[h] == ((10 * h) as u64, (10 * h + 9) as u64));
    assert(in_gap(s[h], uid));
    assert forall|j: int| 0 <= j < h implies !in_gap(#[trigger] s[j], uid) by {
        assert(s[j] == ((10 * j) as u64, (10 * j + 9) as u64));
    }
    lemma_first_gap_unique(s, uid, Some(h as usize));
}

/// The ECDSA holder update succeeds for every holder of a list that
/// `build_ecdsa_setup` signs, whatever its identifier below `10 * n`: the
/// list stays signed under the issuer's key and the gap `uid / 10` contains
/// the identifier, so `ecdsa_holder_update` returns `true`.
pub proof fn lemma_ecdsa_update_accepts_every_uid(s: &EcdsaSetup, n: usize, sk: Seq<u8>)
    requires
        n <= 0x1000_0000_0000,
        s.gaps@.len() == n,
        forall|i: int|
            0 <= i < n ==> (#[trigger] s.gaps@[i]).lower == 10 * i && s.gaps@[i].upper == 10 * i
                + 9,
        gaps_signed_under(s, sk),
        s.uid < 10 * n,
    ensures
        choose_first_gap(gap_bounds(s.gaps@), s.uid) == Some((s.uid / 10) as usize),
{
    let bounds = gap_bounds(s.gaps@);
    let list = Seq::new(n as nat, |i: int| ((10 * i) as u64, (10 * i + 9) as u64));
    assert(bounds =~= list) by {
        assert forall|i: int| 0 <= i < n implies #[trigger] bounds[i] == list[i] by {
            assert(s.gaps@[i].lower == 10 * i);
        }
    }
    lemma_ecdsa_gap_of_every_uid(n, s.uid);
}

/// The holder finds its own gap: in the BBS revocation list of `n` gaps, the
/// first gap that contains the holder's identifier is the one at `n / 2`.
pub proof fn lemma_bbs_holder_finds_gap(n: usize)
    requires
        1 <= n <= 0x1000_0000_0000,
    ensures
        is_first_gap(
            Seq::new(n as nat, |i: int| bbs_gap(n as nat, i as nat)),
            bbs_uid(n as nat),
            Some(n / 2),
        ),
{
    let s = Seq::new(n as nat, |i: int| bbs_gap(n as nat, i as nat));
    let h = (n / 2) as nat;
    assert(s[h as int] == ((2 * h) as u64, (2 * h + 2) as u64));
    assert(in_gap(s[h as int], bbs_uid(n as nat)));
    assert forall|j: int| 0 <= j < n / 2 implies !in_gap(#[trigger] s[j], bbs_uid(n as nat)) by {
        assert(s[j] == ((2 * j) as u64, (2 * j + 1) as u64));
    }
}

/// The ECDSA holder update accepts every list that `build_ecdsa_setup` signs:
/// the list is signed under the issuer's key and the holder's identifier lies
/// in one of its gaps (the one at `n / 2`), so `ecdsa_holder_update` returns
/// `true` on it.
pub proof fn lemma_ecdsa_setup_update_accepts(s: &EcdsaSetup, n: usize, sk: Seq<u8>)
    requires
        1 <= n <= 0x1000_0000_0000,
        ecdsa_setup_for(s, n as nat, sk),
    ensures
        gaps_signed_under(s, sk),
        choose_first_gap(gap_bounds(s.gaps@), s.uid) == Some(n / 2),
{
    let bounds = gap_bounds(s.gaps@);
    let list = Seq::new(n as nat, |i: int| ((10 * i) as u64, (10 * i + 9) as u64));
    assert(bounds =~= list) by {
        assert forall|i: int| 0 <= i < n implies #[trigger] bounds[i] == list[i] by {
            assert(s.gaps@[i].lower == 10 * i);
        }
    }
    assert(s.uid == (10 * (n / 2) + 4) as u64);
    lemma_ecdsa_holder_finds_gap(n);
    lemma_first_gap_unique(bounds, s.uid, Some(n / 2));
}

/// The holder finds its own gap: in the ECDSA revocation list of `n` gaps
/// `(10i, 10i + 9)`, the first gap that contains the identifier
/// `10 * (n / 2) + 4` is the one at `n / 2`.
pub proof fn lemma_ecdsa_holder_finds_gap(n: usize)
    requires
        1 <= n <= 0x1000_0000_0000,
    ensures
        is_first_gap(
            Seq::new(n as nat, |i: int| ((10 * i) as u64, (10 * i + 9) as u64)),
            (10 * (n / 2) + 4) as u64,
            Some(n / 2),
        ),
{
    let s = Seq::new(n as nat, |i: int| ((10 * i) as u64, (10 * i + 9) as u64));
    let h = (n / 2) as int;
    assert(s[h] == ((10 * h) as u64, (10 * h + 9) as u64));
    assert forall|j: int| 0 <= j < h implies !in_gap(#[trigger] s[j], (10 * (n / 2) + 4) as u64) by {
        assert(s[j] == ((10 * j) as u64, (10 * j + 9) as u64));
    }
}

} // verus!
