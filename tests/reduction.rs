use strength_reduce::{
    StrengthReducedU128, StrengthReducedU16, StrengthReducedU32, StrengthReducedU64, StrengthReducedU8,
    StrengthReducedUsize,
};

#[test]
fn test_strength_reduced_u8() {
    let max = u8::MAX;
    let divisors = [
        1, 2, 3, 4, 5, 6, 7, 8, 9, 10, 11, 12, 13, 14, 15, 16, 17, 18, 19, 20, max - 1, max,
    ];
    let numerators = [0, 1, 2, 3, 4, 5, 6, 7, 8, 9, 10, 11, 12, 13, 14, 15, 16, 17, 18, 19, 20];

    for &divisor in &divisors {
        let reduced_divisor = StrengthReducedU8::new(divisor);
        for &numerator in &numerators {
            let expected_div = numerator / divisor;
            let expected_rem = numerator % divisor;

            let reduced_div = numerator / reduced_divisor;
            assert_eq!(
                expected_div, reduced_div,
                "Divide failed with numerator: {}, divisor: {}", numerator, divisor
            );
            let reduced_rem = numerator % reduced_divisor;

            let (reduced_combined_div, reduced_combined_rem) =
                StrengthReducedU8::div_rem(numerator, reduced_divisor);

            assert_eq!(
                expected_rem, reduced_rem,
                "Modulo failed with numerator: {}, divisor: {}", numerator, divisor
            );
            assert_eq!(
                expected_div, reduced_combined_div,
                "div_rem divide failed with numerator: {}, divisor: {}", numerator, divisor
            );
            assert_eq!(
                expected_rem, reduced_combined_rem,
                "div_rem modulo failed with numerator: {}, divisor: {}", numerator, divisor
            );
        }
    }
}

#[test]
fn test_strength_reduced_u16() {
    let max = u16::MAX;
    let divisors = [
        1, 2, 3, 4, 5, 6, 7, 8, 9, 10, 11, 12, 13, 14, 15, 16, 17, 18, 19, 20, max - 1, max,
    ];
    let numerators = [0, 1, 2, 3, 4, 5, 6, 7, 8, 9, 10, 11, 12, 13, 14, 15, 16, 17, 18, 19, 20];

    for &divisor in &divisors {
        let reduced_divisor = StrengthReducedU16::new(divisor);
        for &numerator in &numerators {
            let expected_div = numerator / divisor;
            let expected_rem = numerator % divisor;

            let reduced_div = numerator / reduced_divisor;
            assert_eq!(
                expected_div, reduced_div,
                "Divide failed with numerator: {}, divisor: {}", numerator, divisor
            );
            let reduced_rem = numerator % reduced_divisor;

            let (reduced_combined_div, reduced_combined_rem) =
                StrengthReducedU16::div_rem(numerator, reduced_divisor);

            assert_eq!(
                expected_rem, reduced_rem,
                "Modulo failed with numerator: {}, divisor: {}", numerator, divisor
            );
            assert_eq!(
                expected_div, reduced_combined_div,
                "div_rem divide failed with numerator: {}, divisor: {}", numerator, divisor
            );
            assert_eq!(
                expected_rem, reduced_combined_rem,
                "div_rem modulo failed with numerator: {}, divisor: {}", numerator, divisor
            );
        }
    }
}

#[test]
fn test_strength_reduced_u32() {
    let max = u32::MAX;
    let divisors = [
        1, 2, 3, 4, 5, 6, 7, 8, 9, 10, 11, 12, 13, 14, 15, 16, 17, 18, 19, 20, max - 1, max,
    ];
    let numerators = [0, 1, 2, 3, 4, 5, 6, 7, 8, 9, 10, 11, 12, 13, 14, 15, 16, 17, 18, 19, 20];

    for &divisor in &divisors {
        let reduced_divisor = StrengthReducedU32::new(divisor);
        for &numerator in &numerators {
            let expected_div = numerator / divisor;
            let expected_rem = numerator % divisor;

            let reduced_div = numerator / reduced_divisor;
            assert_eq!(
                expected_div, reduced_div,
                "Divide failed with numerator: {}, divisor: {}", numerator, divisor
            );
            let reduced_rem = numerator % reduced_divisor;

            let (reduced_combined_div, reduced_combined_rem) =
                StrengthReducedU32::div_rem(numerator, reduced_divisor);

            assert_eq!(
                expected_rem, reduced_rem,
                "Modulo failed with numerator: {}, divisor: {}", numerator, divisor
            );
            assert_eq!(
                expected_div, reduced_combined_div,
                "div_rem divide failed with numerator: {}, divisor: {}", numerator, divisor
            );
            assert_eq!(
                expected_rem, reduced_combined_rem,
                "div_rem modulo failed with numerator: {}, divisor: {}", numerator, divisor
            );
        }
    }
}

#[test]
fn test_strength_reduced_u64() {
    let max = u64::MAX;
    let divisors = [
        1, 2, 3, 4, 5, 6, 7, 8, 9, 10, 11, 12, 13, 14, 15, 16, 17, 18, 19, 20, max - 1, max,
    ];
    let numerators = [0, 1, 2, 3, 4, 5, 6, 7, 8, 9, 10, 11, 12, 13, 14, 15, 16, 17, 18, 19, 20];

    for &divisor in &divisors {
        let reduced_divisor = StrengthReducedU64::new(divisor);
        for &numerator in &numerators {
            let expected_div = numerator / divisor;
            let expected_rem = numerator % divisor;

            let reduced_div = numerator / reduced_divisor;
            assert_eq!(
                expected_div, reduced_div,
                "Divide failed with numerator: {}, divisor: {}", numerator, divisor
            );
            let reduced_rem = numerator % reduced_divisor;

            let (reduced_combined_div, reduced_combined_rem) =
                StrengthReducedU64::div_rem(numerator, reduced_divisor);

            assert_eq!(
                expected_rem, reduced_rem,
                "Modulo failed with numerator: {}, divisor: {}", numerator, divisor
            );
            assert_eq!(
                expected_div, reduced_combined_div,
                "div_rem divide failed with numerator: {}, divisor: {}", numerator, divisor
            );
            assert_eq!(
                expected_rem, reduced_combined_rem,
                "div_rem modulo failed with numerator: {}, divisor: {}", numerator, divisor
            );
        }
    }
}

#[test]
fn test_strength_reduced_usize() {
    let max = usize::MAX;
    let divisors = [
        1, 2, 3, 4, 5, 6, 7, 8, 9, 10, 11, 12, 13, 14, 15, 16, 17, 18, 19, 20, max - 1, max,
    ];
    let numerators = [0, 1, 2, 3, 4, 5, 6, 7, 8, 9, 10, 11, 12, 13, 14, 15, 16, 17, 18, 19, 20];

    for &divisor in &divisors {
        let reduced_divisor = StrengthReducedUsize::new(divisor);
        for &numerator in &numerators {
            let expected_div = numerator / divisor;
            let expected_rem = numerator % divisor;

            let reduced_div = numerator / reduced_divisor;
            assert_eq!(
                expected_div, reduced_div,
                "Divide failed with numerator: {}, divisor: {}", numerator, divisor
            );
            let reduced_rem = numerator % reduced_divisor;

            let (reduced_combined_div, reduced_combined_rem) =
                StrengthReducedUsize::div_rem(numerator, reduced_divisor);

            assert_eq!(
                expected_rem, reduced_rem,
                "Modulo failed with numerator: {}, divisor: {}", numerator, divisor
            );
            assert_eq!(
                expected_div, reduced_combined_div,
                "div_rem divide failed with numerator: {}, divisor: {}", numerator, divisor
            );
            assert_eq!(
                expected_rem, reduced_combined_rem,
                "div_rem modulo failed with numerator: {}, divisor: {}", numerator, divisor
            );
        }
    }
}

#[test]
fn test_strength_reduced_u128() {
    let max = u128::MAX;
    let divisors = [
        1, 2, 3, 4, 5, 6, 7, 8, 9, 10, 11, 12, 13, 14, 15, 16, 17, 18, 19, 20, max - 1, max,
    ];
    let numerators = [0, 1, 2, 3, 4, 5, 6, 7, 8, 9, 10, 11, 12, 13, 14, 15, 16, 17, 18, 19, 20];

    for &divisor in &divisors {
        let reduced_divisor = StrengthReducedU128::new(divisor);
        for &numerator in &numerators {
            let expected_div = numerator / divisor;
            let expected_rem = numerator % divisor;

            let reduced_div = numerator / reduced_divisor;
            assert_eq!(
                expected_div, reduced_div,
                "Divide failed with numerator: {}, divisor: {}", numerator, divisor
            );
            let reduced_rem = numerator % reduced_divisor;

            let (reduced_combined_div, reduced_combined_rem) =
                StrengthReducedU128::div_rem(numerator, reduced_divisor);

            assert_eq!(
                expected_rem, reduced_rem,
                "Modulo failed with numerator: {}, divisor: {}", numerator, divisor
            );
            assert_eq!(
                expected_div, reduced_combined_div,
                "div_rem divide failed with numerator: {}, divisor: {}", numerator, divisor
            );
            assert_eq!(
                expected_rem, reduced_combined_rem,
                "div_rem modulo failed with numerator: {}, divisor: {}", numerator, divisor
            );
        }
    }
}

#[test]
fn for_debug() {
    let numerator = 0xFFFF_FFFF_FFFF_FFFF_FFFF_FFFF_FFFF_FFFE;
    let divisor = 0xC187_F639_BEF7_D9FE_6EB9_F118_6E65_06E1;
    let expected_div = numerator / divisor;
    let expected_rem = numerator % divisor;
    let reduced_divisor = StrengthReducedU128::new(divisor);
    let reduced_div = numerator / reduced_divisor;

    assert_eq!(expected_div, reduced_div,
        "Divide failed with numerator: {:#X}, divisor: {:#X}", numerator, divisor);

    let reduced_rem = numerator % reduced_divisor;
    assert_eq!(expected_rem, reduced_rem,
        "Modulo failed with numerator: {:#X}, divisor: {:#X}", numerator, divisor);

    let (reduced_combined_div, reduced_combined_rem) =
        StrengthReducedU128::div_rem(numerator, reduced_divisor);
    assert_eq!(expected_div, reduced_combined_div,
        "div_rem divide failed with numerator: {:#X}, divisor: {:#X}", numerator, divisor);
    assert_eq!(expected_rem, reduced_combined_rem,
        "div_rem modulo failed with numerator: {:#X}, divisor: {:#X}", numerator, divisor);
}
