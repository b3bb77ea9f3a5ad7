use revocation_bench::bignum::BigNumber;

fn big(v: u64) -> BigNumber {
    BigNumber::from_u64(v)
}

#[test]
fn modpow_and_modmul_values() {
    assert_eq!(big(4).modpow(&big(13), &big(497)), big(445));
    assert_eq!(big(7).modmul(&big(9), &big(10)), big(3));
    // a negative exponent raises the inverse: 3^-1 mod 7 == 5, 5^2 mod 7 == 4
    let e = big(2).negate();
    assert_eq!(big(3).modpow(&e, &big(7)), big(4));
    // a zero base with a negative exponent gives zero
    assert_eq!(big(0).modpow(&e, &big(7)), big(0));
}

#[test]
fn invert_values() {
    assert_eq!(big(3).invert(&big(7)).unwrap(), big(5));
    assert!(big(0).invert(&big(7)).is_none());
    assert!(big(3).invert(&big(1)).is_none());
}

#[test]
fn extended_gcd_gives_bezout() {
    let a = big(240);
    let b = big(46);
    let g = a.extended_gcd(&b);
    assert_eq!(g.gcd, big(2));
    let lhs = g.x.times(&a).minus(&g.y.times(&b).negate());
    assert_eq!(lhs, big(2));
}

#[test]
fn invertibility_check() {
    assert!(big(3).is_invertible_mod(&big(10)));
    assert!(!big(4).is_invertible_mod(&big(10)));
}

#[test]
fn shifts_and_signs() {
    assert_eq!(big(1).shl(10), big(1024));
    assert_eq!(big(1027).shr(2), big(256));
    assert_eq!(big(7).negate().shr(1), big(3).negate());
    assert!(big(5).negate().lt(&big(0)));
    assert_eq!(big(5).minus(&big(8)), big(3).negate());
    assert_eq!(big(5).negate().to_bytes(), vec![5u8]);
    assert_eq!(big(0).to_bytes(), Vec::<u8>::new());
    assert_eq!(big(256).to_bytes(), vec![1u8, 0u8]);
}

#[test]
fn from_slice_reads_big_endian() {
    assert_eq!(BigNumber::from_slice(&[1, 0, 0]), big(65536));
    assert_eq!(BigNumber::from_slice(&[]), big(0));
    assert!(big(1).is_one());
    assert!(!big(2).is_one());
}

#[test]
fn random_values_in_range() {
    let lo = big(10).negate();
    let hi = big(10);
    for _ in 0..20 {
        let r = BigNumber::random_range(&lo, &hi);
        assert!(!r.lt(&lo) && r.lt(&hi));
        let s = BigNumber::random(&hi);
        assert!(!s.lt(&big(0)) && s.lt(&hi));
    }
    let b = BigNumber::random_bits(16);
    assert!(!b.lt(&big(65536)) && b.lt(&big(131072)));
    assert!(BigNumber::prime(32).is_prime());
}

#[test]
fn fermat_and_rsa_trapdoor_orders() {
    // a^(p-1) == 1 (mod p) for every a not divisible by p = 13
    for a in 1..13u64 {
        assert_eq!(big(a).modpow(&big(12), &big(13)), big(1));
    }
    // every unit modulo 11 * 13 has order dividing 10 * 12
    let n = big(143);
    let mut units = 0;
    for v in 1..143u64 {
        if big(v).is_invertible_mod(&n) {
            units += 1;
            assert_eq!(big(v).modpow(&big(120), &n), big(1));
        }
    }
    assert_eq!(units, 120);
    // a non-unit does not reach one
    assert_ne!(big(11).modpow(&big(120), &n), big(1));
}
