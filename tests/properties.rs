use strength_reduce::{
    StrengthReducedU128, StrengthReducedU16, StrengthReducedU32, StrengthReducedU64, StrengthReducedU8,
    StrengthReducedUsize,
};

#[test]
fn divisor_one_returns_numerator() {
    let one = StrengthReducedU8::new(1);
    for n in 0..=u8::MAX {
        assert_eq!(one.divide(n), n);
        assert_eq!(one.remainder(n), 0);
    }
}

#[test]
fn largest_u8_divisor() {
    let e = StrengthReducedU8::new(255);
    assert_eq!(e.divide(254), 0);
    assert_eq!(e.remainder(254), 254);
    assert_eq!(e.divide(255), 1);
    assert_eq!(e.remainder(255), 0);
}

#[test]
fn divisor_six_small_numerators() {
    let e = StrengthReducedU8::new(6);
    for n in 0..=20u8 {
        assert_eq!(e.divide(n), n / 6);
        assert_eq!(e.remainder(n), n % 6);
        assert_eq!(StrengthReducedU8::div_rem(n, e), (n / 6, n % 6));
    }
    assert_eq!(StrengthReducedU8::div_rem(255, e), (42, 3));
}

#[test]
fn every_u8_pair_is_exact() {
    for d in 1..=u8::MAX {
        let e = StrengthReducedU8::new(d);
        for n in 0..=u8::MAX {
            assert_eq!(e.divide(n), n / d);
            assert_eq!(e.remainder(n), n % d);
            assert_eq!(StrengthReducedU8::div_rem(n, e), (n / d, n % d));
        }
    }
}

#[test]
fn every_u16_numerator_for_some_divisors() {
    for &d in &[3u16, 7, 10, 255, 256, 641, 1000, 0x8000, 0xFFFE, 0xFFFF] {
        let e = StrengthReducedU16::new(d);
        for n in 0..=u16::MAX {
            assert_eq!(StrengthReducedU16::div_rem(n, e), (n / d, n % d));
            assert_eq!(n % e, n % d);
        }
    }
}

#[test]
fn wide_u32_values() {
    let numerators = [0u32, 1, 99, 0xFFFF, 0x1_0000, 0x7FFF_FFFF, 0x8000_0000, 0xFFFF_FFFE, u32::MAX];
    for &d in &[3u32, 7, 0x1_0000, 0x7FFF_FFFF, 0x8000_0001, u32::MAX - 1, u32::MAX] {
        let e = StrengthReducedU32::new(d);
        for &n in &numerators {
            assert_eq!(e.divide(n), n / d);
            assert_eq!(e.remainder(n), n % d);
            assert_eq!(StrengthReducedU32::div_rem(n, e), (n / d, n % d));
        }
    }
}

#[test]
fn wide_u64_values() {
    let numerators = [0u64, 1, 12345, 0xFFFF_FFFF, 0x1_0000_0000, 0x8000_0000_0000_0000, u64::MAX - 1, u64::MAX];
    for &d in &[3u64, 10, 0xFFFF_FFFF, 0x1_0000_0001, 0x8000_0000_0000_0001, u64::MAX - 1, u64::MAX] {
        let e = StrengthReducedU64::new(d);
        for &n in &numerators {
            assert_eq!(e.divide(n), n / d);
            assert_eq!(e.remainder(n), n % d);
            assert_eq!(n / e, n / d);
            assert_eq!(StrengthReducedU64::div_rem(n, e), (n / d, n % d));
        }
    }
}

#[test]
fn wide_usize_values() {
    let numerators = [0usize, 1, 77, usize::MAX / 3, usize::MAX - 1, usize::MAX];
    for &d in &[3usize, 1000, usize::MAX / 2, usize::MAX - 1, usize::MAX] {
        let e = StrengthReducedUsize::new(d);
        for &n in &numerators {
            assert_eq!(e.divide(n), n / d);
            assert_eq!(e.remainder(n), n % d);
            assert_eq!(StrengthReducedUsize::div_rem(n, e), (n / d, n % d));
        }
    }
}

#[test]
fn wide_u128_values() {
    let numerators = [
        0u128,
        1,
        u64::MAX as u128,
        (u64::MAX as u128) + 1,
        0x1234_5678_9ABC_DEF0_1234_5678_9ABC_DEF0,
        u128::MAX - 1,
        u128::MAX,
    ];
    let divisors = [
        3u128,
        10,
        u64::MAX as u128,
        (u64::MAX as u128) + 2,
        0x8000_0000_0000_0000_0000_0000_0000_0001,
        0xC187_F639_BEF7_D9FE_6EB9_F118_6E65_06E1,
        u128::MAX - 1,
        u128::MAX,
    ];
    for &d in &divisors {
        let e = StrengthReducedU128::new(d);
        for &n in &numerators {
            assert_eq!(e.divide(n), n / d);
            assert_eq!(e.remainder(n), n % d);
            assert_eq!(StrengthReducedU128::div_rem(n, e), (n / d, n % d));
        }
    }
}

#[test]
fn powers_of_two_shift_and_mask() {
    for k in 0..8 {
        let d = 1u8 << k;
        let e = StrengthReducedU8::new(d);
        assert_eq!(e.divide(u8::MAX), u8::MAX >> k);
        assert_eq!(e.remainder(u8::MAX), u8::MAX & (d - 1));
    }
    for k in 0..64 {
        let d = 1u64 << k;
        let e = StrengthReducedU64::new(d);
        assert_eq!(e.divide(u64::MAX), u64::MAX >> k);
        assert_eq!(e.remainder(0x0123_4567_89AB_CDEF), 0x0123_4567_89AB_CDEF % d);
    }
    for k in 0..128 {
        let d = 1u128 << k;
        let e = StrengthReducedU128::new(d);
        assert_eq!(e.divide(u128::MAX), u128::MAX >> k);
        assert_eq!(e.remainder(u128::MAX - 5), (u128::MAX - 5) % d);
    }
}

#[test]
fn u128_power_of_two_divisor_exact_values() {
    let e = StrengthReducedU128::new(1u128 << 100);
    let n = 0xFEDC_BA98_7654_3210_0123_4567_89AB_CDEFu128;
    assert_eq!(e.divide(n), 0xFED_CBA9);
    assert_eq!(e.remainder(n), 0x8_7654_3210_0123_4567_89AB_CDEF);
}

#[test]
fn reconstruction_identity() {
    let e = StrengthReducedU32::new(7919);
    for &n in &[0u32, 1, 7918, 7919, 7920, 1_000_000, u32::MAX] {
        let (q, r) = StrengthReducedU32::div_rem(n, e);
        assert_eq!(q * 7919 + r, n);
        assert!(r < 7919);
    }
    let d = 0xC187_F639_BEF7_D9FE_6EB9_F118_6E65_06E1u128;
    let e = StrengthReducedU128::new(d);
    let n = u128::MAX;
    assert_eq!(e.divide(n) * d + e.remainder(n), n);
}

#[test]
fn get_returns_divisor() {
    assert_eq!(StrengthReducedU8::new(200).get(), 200);
    assert_eq!(StrengthReducedU16::new(40_000).get(), 40_000);
    assert_eq!(StrengthReducedU32::new(3_000_000_000).get(), 3_000_000_000);
    assert_eq!(StrengthReducedU64::new(u64::MAX).get(), u64::MAX);
    assert_eq!(StrengthReducedUsize::new(12).get(), 12);
    assert_eq!(StrengthReducedU128::new(u128::MAX - 2).get(), u128::MAX - 2);
}

#[test]
fn exact_u128_quotient_for_three() {
    let e = StrengthReducedU128::new(3);
    assert_eq!(e.divide(u128::MAX), 0x5555_5555_5555_5555_5555_5555_5555_5555);
    assert_eq!(e.remainder(u128::MAX), 0);
    assert_eq!(e.divide(u128::MAX - 1), 0x5555_5555_5555_5555_5555_5555_5555_5554);
    assert_eq!(e.remainder(u128::MAX - 1), 2);
}
