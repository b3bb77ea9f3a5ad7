use revocation_bench::params::{ADD_BATCH, DEL_BATCH, LIST_BASE_SIZE};
use revocation_bench::schedule::{batch_end, case_label, max_proof_size, num_batches};
use revocation_bench::signed_pairs::{
    bbs_gap_list, build_ecdsa_setup, ecdsa_holder_update, encode_gap, find_gap, gap_differences,
    LOWER_ID, REV_HANDLE_VAL, UPPER_ID,
};
use revocation_bench::types::Phase;

#[test]
fn phase_labels() {
    assert_eq!(Phase::HolderUpdate.as_str(), "iv");
    assert_eq!(Phase::Presentation.as_str(), "v");
    assert_eq!(Phase::Verification.as_str(), "vi");
}

#[test]
fn gap_encoding_is_big_endian() {
    let msg = encode_gap(1025, 10, 19);
    let mut expected = [0u8; 24];
    expected[6] = 4;
    expected[7] = 1;
    expected[15] = 10;
    expected[23] = 19;
    assert_eq!(msg, expected);
    let msg = encode_gap(u64::MAX, 0, 0x0102_0304_0506_0708);
    assert_eq!(&msg[0..8], &[0xff; 8]);
    assert_eq!(&msg[8..16], &[0; 8]);
    assert_eq!(&msg[16..24], &[1, 2, 3, 4, 5, 6, 7, 8]);
}

#[test]
fn gap_encoding_decodes_and_is_injective() {
    let triples = [(1025u64, 10u64, 19u64), (0, 0, 0), (u64::MAX, 1, 2), (1025, 19, 10)];
    for &(e, l, u) in triples.iter() {
        let m = encode_gap(e, l, u);
        assert_eq!(u64::from_be_bytes(m[0..8].try_into().unwrap()), e);
        assert_eq!(u64::from_be_bytes(m[8..16].try_into().unwrap()), l);
        assert_eq!(u64::from_be_bytes(m[16..24].try_into().unwrap()), u);
        for &(e2, l2, u2) in triples.iter() {
            assert_eq!(m == encode_gap(e2, l2, u2), (e, l, u) == (e2, l2, u2));
        }
    }
}

#[test]
fn find_gap_returns_first_match() {
    let gaps = vec![(0u64, 1u64), (2, 5), (4, 9)];
    assert_eq!(find_gap(&gaps, 4), Some(1));
    assert_eq!(find_gap(&gaps, 9), Some(2));
    assert_eq!(find_gap(&gaps, 10), None);
    assert_eq!(find_gap(&Vec::new(), 0), None);
}

#[test]
fn bbs_list_places_holder_in_middle_gap() {
    let (gaps, uid) = bbs_gap_list(5);
    assert_eq!(gaps, vec![(0, 1), (2, 3), (4, 6), (7, 8), (9, 10)]);
    assert_eq!(uid, 5);
    assert_eq!(find_gap(&gaps, uid), Some(2));
    let (gaps, uid) = bbs_gap_list(1);
    assert_eq!(gaps, vec![(0, 2)]);
    assert_eq!(uid, 1);
    let n = LIST_BASE_SIZE + DEL_BATCH[0] + 1;
    let (gaps, uid) = bbs_gap_list(n);
    assert_eq!(gaps.len(), n);
    assert_eq!(find_gap(&gaps, uid), Some(n / 2));
}

#[test]
fn range_statement_differences() {
    assert_eq!(gap_differences(LOWER_ID, REV_HANDLE_VAL, UPPER_ID), (499, 499));
    assert_eq!(gap_differences(1, 2, 3), (0, 0));
}

#[test]
fn ecdsa_holder_update_verifies_own_gap() {
    let sk = [7u8; 32];
    let s = build_ecdsa_setup(11, &sk).unwrap();
    assert_eq!(s.gaps.len(), 11);
    assert_eq!(s.uid, 54);
    assert_eq!(s.gaps[5].lower, 50);
    assert_eq!(s.gaps[5].upper, 59);
    assert_eq!(ecdsa_holder_update(&s), (0, true));
}

#[test]
fn ecdsa_holder_update_rejects_bad_signature_or_missing_gap() {
    let sk = [7u8; 32];
    let mut s = build_ecdsa_setup(3, &sk).unwrap();
    s.gaps[1].sig[0] ^= 1;
    assert_eq!(ecdsa_holder_update(&s), (0, false));
    let mut s = build_ecdsa_setup(3, &sk).unwrap();
    s.uid = 1000;
    assert_eq!(ecdsa_holder_update(&s), (0, false));
}

#[test]
fn ecdsa_setup_rejects_invalid_key() {
    assert!(build_ecdsa_setup(3, &[0u8; 32]).is_none());
}

#[test]
fn batch_arithmetic() {
    assert_eq!(num_batches(50, 5), 10);
    assert_eq!(num_batches(51, 5), 11);
    assert_eq!(num_batches(7, 0), 7);
    assert_eq!(num_batches(0, 5), 0);
    assert_eq!(batch_end(0, 5, 12), 5);
    assert_eq!(batch_end(2, 5, 12), 12);
    assert_eq!(batch_end(3, 0, 12), 4);
}

#[test]
fn proof_size_is_the_maximum() {
    assert_eq!(max_proof_size(&vec![3, 9, 4]), 9);
    assert_eq!(max_proof_size(&Vec::new()), 0);
}

#[test]
fn case_labels() {
    assert_eq!(case_label("witness_update", Some(4096)), "witness_update_k4096");
    assert_eq!(case_label("prove_membership", None), "prove_membership");
    assert_eq!(case_label("x", Some(0)), "x_k0");
}

#[test]
fn parameter_tables() {
    assert_eq!(ADD_BATCH, [1, 1024, 4096, 16384, 65536]);
    assert_eq!(DEL_BATCH, [1, 8, 64, 512, 4096]);
}
