//! Quotients of the largest double-width and quadruple-width values by a divisor, as
//! needed for the reciprocal multipliers of the 64- and 128-bit engines.
use crate::arith::{lemma_pow2_128, lemma_pow2_256};
use vstd::arithmetic::div_mod::{lemma_fundamental_div_mod, lemma_fundamental_div_mod_converse};
use vstd::arithmetic::power2::{
    lemma_pow2_pos,
    lemma_pow2_strictly_increases,
    lemma_pow2_unfold,
    pow2,
};
use vstd::prelude::*;

verus! {

/// One digit of long division in base `2^64`: divides the two-limb value whose high limb is
/// the running remainder `rem` and whose low limb is all ones.
fn divide_limb(rem: u64, d: u64) -> (r: (u64, u64))
    requires
        rem < d,
    ensures
        r.0 * d + r.1 == rem * 0x1_0000_0000_0000_0000 + 0xffff_ffff_ffff_ffff,
        r.1 < d,
{
    let dividend = ((rem as u128) << 64) | (u64::MAX as u128);
    assert(dividend == rem * 0x1_0000_0000_0000_0000 + 0xffff_ffff_ffff_ffff) by (bit_vector)
        requires
            dividend == ((rem as u128) << 64) | (0xffff_ffff_ffff_ffffu64 as u128),
    ;
    let divisor = d as u128;
    let quotient = dividend / divisor;
    let remainder = dividend % divisor;
    proof {
        lemma_fundamental_div_mod(dividend as int, divisor as int);
        assert(quotient < 0x1_0000_0000_0000_0000) by (nonlinear_arith)
            requires
                dividend == divisor * quotient + remainder,
                remainder >= 0,
                dividend == rem * 0x1_0000_0000_0000_0000 + 0xffff_ffff_ffff_ffff,
                rem < d,
                divisor == d,
        ;
        assert(quotient * d + remainder == dividend) by (nonlinear_arith)
            requires
                dividend == divisor * quotient + remainder,
                divisor == d,
        ;
    }
    (quotient as u64, remainder as u64)
}

/// `(2^128 - 1) / d`, by long division of the two all-ones limbs.
pub(crate) fn divide_128_max_by_64(d: u64) -> (r: u128)
    requires
        d != 0,
    ensures
        r == (0x1_0000_0000_0000_0000 * 0x1_0000_0000_0000_0000 - 1) / (d as int),
{
    let (digit_hi, rem_hi) = divide_limb(0, d);
    let (digit_lo, rem_lo) = divide_limb(rem_hi, d);
    let quotient = ((digit_hi as u128) << 64) | (digit_lo as u128);
    proof {
        assert(quotient == digit_hi * 0x1_0000_0000_0000_0000 + digit_lo) by (bit_vector)
            requires
                quotient == ((digit_hi as u128) << 64) | (digit_lo as u128),
        ;
        let b = 0x1_0000_0000_0000_0000int;
        assert(quotient * d + rem_lo == b * b - 1) by (nonlinear_arith)
            requires
                quotient == digit_hi * b + digit_lo,
                digit_hi * d + rem_hi == b - 1,
                digit_lo * d + rem_lo == rem_hi * b + b - 1,
        ;
        lemma_fundamental_div_mod_converse(b * b - 1, d as int, quotient as int, rem_lo as int);
    }
    quotient
}

/// `(2^256 - 1) / d` for a divisor of at most 64 bits, by long division of the four
/// all-ones limbs.
fn divide_256_max_by_64(d: u64) -> (r: (u128, u128))
    requires
        d != 0,
    ensures
        r.0 * 0x1_0000_0000_0000_0000_0000_0000_0000_0000 + r.1 == (
        0x1_0000_0000_0000_0000_0000_0000_0000_0000 * 0x1_0000_0000_0000_0000_0000_0000_0000_0000
            - 1) / (d as int),
{
    let (digit3, rem3) = divide_limb(0, d);
    let (digit2, rem2) = divide_limb(rem3, d);
    let (digit1, rem1) = divide_limb(rem2, d);
    let (digit0, rem0) = divide_limb(rem1, d);
    let quotient_hi = ((digit3 as u128) << 64) | (digit2 as u128);
    let quotient_lo = ((digit1 as u128) << 64) | (digit0 as u128);
    proof {
        assert(quotient_hi == digit3 * 0x1_0000_0000_0000_0000 + digit2 && quotient_lo == digit1
            * 0x1_0000_0000_0000_0000 + digit0) by (bit_vector)
            requires
                quotient_hi == ((digit3 as u128) << 64) | (digit2 as u128),
                quotient_lo == ((digit1 as u128) << 64) | (digit0 as u128),
        ;
        let b = 0x1_0000_0000_0000_0000int;
        let x2 = digit3 * b + digit2;
        let x3 = x2 * b + digit1;
        let x4 = x3 * b + digit0;
        assert(x2 * d + rem2 == b * b - 1) by (nonlinear_arith)
            requires
                x2 == digit3 * b + digit2,
                digit3 * d + rem3 == b - 1,
                digit2 * d + rem2 == rem3 * b + b - 1,
        ;
        assert(x3 * d + rem1 == b * b * b - 1) by (nonlinear_arith)
            requires
                x3 == x2 * b + digit1,
                x2 * d + rem2 == b * b - 1,
                digit1 * d + rem1 == rem2 * b + b - 1,
        ;
        assert(x4 * d + rem0 == b * b * b * b - 1) by (nonlinear_arith)
            requires
                x4 == x3 * b + digit0,
                x3 * d + rem1 == b * b * b - 1,
                digit0 * d + rem0 == rem1 * b + b - 1,
        ;
        assert(x4 == quotient_hi * (b * b) + quotient_lo) by (nonlinear_arith)
            requires
                x4 == ((digit3 * b + digit2) * b + digit1) * b + digit0,
                quotient_hi == digit3 * b + digit2,
                quotient_lo == digit1 * b + digit0,
        ;
        lemma_fundamental_div_mod_converse(b * b * b * b - 1, d as int, x4, rem0 as int);
    }
    (quotient_hi, quotient_lo)
}

/// `(2^256 - 1) / d` for any divisor, a bit at a time.
///
/// A running remainder of up to 128 bits cannot take a 64-bit limb and still be divided
/// natively, so here the dividend's bits, all ones, are brought down one at a time, most
/// significant first, and the running remainder stays below `d` throughout.
fn divide_256_max_bitwise(d: u128) -> (r: (u128, u128))
    requires
        d != 0,
    ensures
        r.0 * 0x1_0000_0000_0000_0000_0000_0000_0000_0000 + r.1 == (
        0x1_0000_0000_0000_0000_0000_0000_0000_0000 * 0x1_0000_0000_0000_0000_0000_0000_0000_0000
            - 1) / (d as int),
{
    let mut quotient_hi: u128 = 0;
    let mut quotient_lo: u128 = 0;
    let mut remainder: u128 = 0;
    let mut i: u32 = 0;
    proof {
        lemma_pow2_128();
        lemma_pow2_256();
        lemma_pow2_unfold(256);
        vstd::arithmetic::power2::lemma2_to64();
        assert(pow2(0) == 1);
        assert((0 * 0x1_0000_0000_0000_0000_0000_0000_0000_0000 + 0) * d + 0 == 0) by (nonlinear_arith);
    }
    while i < 256
        invariant
            i <= 256,
            remainder < d,
            pow2(255) * 2 == 0x1_0000_0000_0000_0000_0000_0000_0000_0000
                * 0x1_0000_0000_0000_0000_0000_0000_0000_0000,
            (quotient_hi * 0x1_0000_0000_0000_0000_0000_0000_0000_0000 + quotient_lo) * d
                + remainder == pow2(i as nat) - 1,
        decreases 256 - i,
    {
        let ghost q: int = quotient_hi * 0x1_0000_0000_0000_0000_0000_0000_0000_0000 + quotient_lo;
        let ghost r0: int = remainder as int;
        proof {
            lemma_pow2_unfold((i + 1) as nat);
            lemma_pow2_pos(i as nat);
            if i < 255 {
                lemma_pow2_strictly_increases(i as nat, 255);
            }
            assert(q <= pow2(i as nat) - 1) by (nonlinear_arith)
                requires
                    q * d + r0 == pow2(i as nat) - 1,
                    d >= 1,
                    r0 >= 0,
                    q >= 0,
            ;
            assert(quotient_hi < 0x8000_0000_0000_0000_0000_0000_0000_0000) by (nonlinear_arith)
                requires
                    q == quotient_hi * 0x1_0000_0000_0000_0000_0000_0000_0000_0000 + quotient_lo,
                    quotient_lo >= 0,
                    q <= pow2(255) - 1,
                    pow2(255) * 2 == 0x1_0000_0000_0000_0000_0000_0000_0000_0000
                        * 0x1_0000_0000_0000_0000_0000_0000_0000_0000,
            ;
        }
        let top = quotient_lo >> 127;
        let bit: u128;
        if remainder >= d - remainder - 1 {
            remainder = remainder - (d - remainder - 1);
            bit = 1;
        } else {
            remainder = remainder + remainder + 1;
            bit = 0;
        }
        assert(remainder == 2 * r0 + 1 - bit * d);
        let ghost lo = quotient_lo;
        let ghost hi = quotient_hi;
        quotient_hi = (quotient_hi << 1) | top;
        quotient_lo = (quotient_lo << 1) | bit;
        proof {
            assert(quotient_hi == 2 * hi + top && quotient_lo + top
                * 0x1_0000_0000_0000_0000_0000_0000_0000_0000 == 2 * lo + bit) by (bit_vector)
                requires
                    hi < 0x8000_0000_0000_0000_0000_0000_0000_0000,
                    top == lo >> 127,
                    bit <= 1,
                    quotient_hi == (hi << 1) | top,
                    quotient_lo == (lo << 1) | bit,
            ;
            assert((quotient_hi * 0x1_0000_0000_0000_0000_0000_0000_0000_0000 + quotient_lo) * d
                + remainder == 2 * (q * d + r0) + 1) by (nonlinear_arith)
                requires
                    quotient_hi == 2 * hi + top,
                    quotient_lo + top * 0x1_0000_0000_0000_0000_0000_0000_0000_0000 == 2 * lo
                        + bit,
                    q == hi * 0x1_0000_0000_0000_0000_0000_0000_0000_0000 + lo,
                    remainder == 2 * r0 + 1 - bit * d,
            ;
        }
        i += 1;
    }
    proof {
        lemma_fundamental_div_mod_converse(
            pow2(256) - 1,
            d as int,
            quotient_hi * 0x1_0000_0000_0000_0000_0000_0000_0000_0000 + quotient_lo,
            remainder as int,
        );
    }
    (quotient_hi, quotient_lo)
}

/// `(2^256 - 1) / d`, as its high and low 128-bit halves: by 64-bit limbs when the divisor
/// fits in one limb, else a bit at a time.
pub(crate) fn divide_256_max_by_128(d: u128) -> (r: (u128, u128))
    requires
        d != 0,
    ensures
        r.0 * 0x1_0000_0000_0000_0000_0000_0000_0000_0000 + r.1 == (
        0x1_0000_0000_0000_0000_0000_0000_0000_0000 * 0x1_0000_0000_0000_0000_0000_0000_0000_0000
            - 1) / (d as int),
{
    if d <= u64::MAX as u128 {
        divide_256_max_by_64(d as u64)
    } else {
        divide_256_max_bitwise(d)
    }
}

} // verus!
