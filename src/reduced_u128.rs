//! Division of `u128` values by a fixed divisor, with a 256-bit multiplier.
use crate::arith::{
    lemma_remainder_by_subtraction,
    is_power_of_two,
    lemma_not_power_of_two_at_least_three,
    lemma_power_of_two_test,
    lemma_reciprocal_exact,
    lemma_shift_and_mask,
    lemma_split_fits,
    multiplier_for,
    reciprocal,
};
use crate::long_division::divide_256_max_by_128;
use crate::long_multiplication::multiply_256_by_128_upperbits;
use vstd::prelude::*;
use vstd::std_specs::bits::axiom_u64_trailing_zeros;

verus! {

/// The number of trailing zero bits of `x`, from its two 64-bit halves: for a non-zero
/// value, the position of its lowest set bit.
fn trailing_zeros_u128(x: u128) -> (r: u32)
    ensures
        r <= 128,
        x != 0 ==> r < 128 && (x >> r) & 1 == 1,
{
    let lo = x as u64;
    if lo != 0 {
        let t = lo.trailing_zeros();
        proof {
            broadcast use axiom_u64_trailing_zeros;

            let tw = t as u64;
            assert((lo >> tw) & 1 == 1);
            assert((x >> t) & 1 == 1) by (bit_vector)
                requires
                    lo == x as u64,
                    tw == t as u64,
                    t < 64,
                    (lo >> tw) & 1 == 1,
            ;
        }
        t
    } else {
        let hi = (x >> 64) as u64;
        let t = hi.trailing_zeros();
        proof {
            broadcast use axiom_u64_trailing_zeros;

            assert(x != 0 ==> hi != 0) by (bit_vector)
                requires
                    lo == x as u64,
                    lo == 0,
                    hi == (x >> 64) as u64,
            ;
            if x != 0 {
                let tw = t as u64;
                assert((hi >> tw) & 1 == 1);
                assert((x >> (t + 64) as u32) & 1 == 1) by (bit_vector)
                    requires
                        hi == (x >> 64) as u64,
                        tw == t as u64,
                        t < 64,
                        (hi >> tw) & 1 == 1,
                ;
            }
        }
        t + 64
    }
}

/// Divides `u128` values by a fixed non-zero divisor with a multiplication and shifts.
///
/// The 256-bit multiplier is kept as two halves.
#[derive(Clone, Copy, Debug)]
pub struct StrengthReducedU128 {
    multiplier_hi: u128,
    multiplier_lo: u128,
    divisor: u128,
}

impl StrengthReducedU128 {
    /// The divisor.
    pub closed spec fn spec_divisor(&self) -> u128 {
        self.divisor
    }

    /// The precomputed multiplier, both halves together: zero when the divisor is a power of
    /// two.
    pub closed spec fn spec_multiplier(&self) -> nat {
        (self.multiplier_hi * 0x1_0000_0000_0000_0000_0000_0000_0000_0000int + self.multiplier_lo) as nat
    }

    /// The divisor is non-zero and the multiplier is the one that belongs to it.
    pub closed spec fn wf(&self) -> bool {
        &&& self.divisor != 0
        &&& self.spec_multiplier() == multiplier_for(
            self.divisor as nat,
            0x1_0000_0000_0000_0000_0000_0000_0000_0000int,
        )
    }

    /// Prepares division by `divisor`.
    pub fn new(divisor: u128) -> (r: Self)
        requires
            divisor != 0,
        ensures
            r.wf(),
            r.spec_divisor() == divisor,
            r.spec_multiplier() == multiplier_for(
                divisor as nat,
                0x1_0000_0000_0000_0000_0000_0000_0000_0000int,
            ),
    {
        proof {
            lemma_power_of_two_test(divisor);
        }
        if divisor & (divisor - 1) == 0 {
            Self { multiplier_hi: 0, multiplier_lo: 0, divisor }
        } else {
            proof {
                lemma_not_power_of_two_at_least_three(divisor as nat);
                lemma_split_fits(0, divisor as int, 0x1_0000_0000_0000_0000_0000_0000_0000_0000int);
            }
            let (quotient_hi, quotient_lo) = divide_256_max_by_128(divisor);
            let multiplier_lo = quotient_lo.wrapping_add(1);
            let multiplier_hi = if multiplier_lo == 0 {
                quotient_hi + 1
            } else {
                quotient_hi
            };
            Self { multiplier_hi, multiplier_lo, divisor }
        }
    }

    /// Quotient and remainder of `numerator` by the divisor, as `(quotient, remainder)`.
    pub fn div_rem(numerator: u128, denom: Self) -> (r: (u128, u128))
        requires
            denom.wf(),
        ensures
            r.0 == numerator / denom.spec_divisor(),
            r.1 == numerator % denom.spec_divisor(),
    {
        let quotient = denom.divide(numerator);
        proof {
            lemma_remainder_by_subtraction(numerator as int, denom.divisor as int);
        }
        let remainder = numerator - quotient * denom.get();
        (quotient, remainder)
    }

    /// The divisor this value was built from.
    pub fn get(&self) -> (r: u128)
        ensures
            r == self.spec_divisor(),
    {
        self.divisor
    }

    /// `num / divisor`.
    pub fn divide(&self, num: u128) -> (r: u128)
        requires
            self.wf(),
        ensures
            r == num / self.spec_divisor(),
    {
        let d = self.divisor;
        proof {
            lemma_power_of_two_test(d);
        }
        if self.multiplier_hi == 0 {
            let t = trailing_zeros_u128(d);
            proof {
                self.lemma_high_half_sentinel();
                lemma_shift_and_mask(d, t as u128, num);
            }
            num >> t
        } else {
            proof {
                self.lemma_high_half_sentinel();
                self.lemma_product(num);
            }
            multiply_256_by_128_upperbits(self.multiplier_hi, self.multiplier_lo, num)
        }
    }

    /// `num % divisor`.
    pub fn remainder(&self, num: u128) -> (r: u128)
        requires
            self.wf(),
        ensures
            r == num % self.spec_divisor(),
    {
        let d = self.divisor;
        proof {
            lemma_power_of_two_test(d);
        }
        if self.multiplier_hi == 0 {
            let t = trailing_zeros_u128(d);
            proof {
                self.lemma_high_half_sentinel();
                lemma_shift_and_mask(d, t as u128, num);
            }
            num & (d - 1)
        } else {
            proof {
                self.lemma_high_half_sentinel();
                self.lemma_product(num);
                lemma_remainder_by_subtraction(num as int, d as int);
            }
            let quotient = multiply_256_by_128_upperbits(self.multiplier_hi, self.multiplier_lo, num);
            num - quotient * d
        }
    }

    /// The high half of the multiplier is zero exactly when the divisor is a power of two.
    proof fn lemma_high_half_sentinel(&self)
        requires
            self.wf(),
        ensures
            self.multiplier_hi == 0 <==> is_power_of_two(self.divisor as nat),
            self.multiplier_hi == 0 ==> self.multiplier_lo == 0,
    {
        if !is_power_of_two(self.divisor as nat) {
            lemma_not_power_of_two_at_least_three(self.divisor as nat);
            lemma_split_fits(0, self.divisor as int, 0x1_0000_0000_0000_0000_0000_0000_0000_0000int);
        }
    }

    /// The high 256-bit word of the multiplier times `num` is the quotient.
    proof fn lemma_product(&self, num: u128)
        requires
            self.wf(),
            !is_power_of_two(self.divisor as nat),
        ensures
            (self.multiplier_hi * (0x1_0000_0000_0000_0000int * 0x1_0000_0000_0000_0000int)
                + self.multiplier_lo) * num / (0x1_0000_0000_0000_0000int * 0x1_0000_0000_0000_0000int
                * 0x1_0000_0000_0000_0000int * 0x1_0000_0000_0000_0000int) == num / self.divisor,
    {
        let b: int = 0x1_0000_0000_0000_0000_0000_0000_0000_0000int;
        let m = self.multiplier_hi * b + self.multiplier_lo;
        lemma_reciprocal_exact(num as int, self.divisor as int, b);
        assert(m == reciprocal(self.divisor as int, b));
        assert(num * m == m * num) by (nonlinear_arith);
    }

    /// Quotient times divisor plus remainder gives the numerator back, and the remainder is
    /// below the divisor.
    pub proof fn lemma_reconstruction(&self, n: u128)
        requires
            self.wf(),
        ensures
            (n / self.spec_divisor()) * self.spec_divisor() + n % self.spec_divisor() == n,
            n % self.spec_divisor() < self.spec_divisor(),
    {
        lemma_remainder_by_subtraction(n as int, self.spec_divisor() as int);
    }

    /// The multiplier is the zero sentinel exactly when the divisor is a power of two.
    pub proof fn lemma_power_of_two_sentinel(&self)
        requires
            self.wf(),
        ensures
            self.spec_multiplier() == 0 <==> is_power_of_two(self.spec_divisor() as nat),
    {
        if !is_power_of_two(self.spec_divisor() as nat) {
            lemma_not_power_of_two_at_least_three(self.spec_divisor() as nat);
            lemma_split_fits(0, self.spec_divisor() as int, 0x1_0000_0000_0000_0000_0000_0000_0000_0000int);
        }
    }
}

impl core::ops::Div<StrengthReducedU128> for u128 {
    type Output = u128;

    /// `self / rhs`, the same as `rhs.divide(self)`.
    fn div(self, rhs: StrengthReducedU128) -> (r: u128) {
        rhs.divide(self)
    }
}

impl vstd::std_specs::ops::DivSpecImpl<StrengthReducedU128> for u128 {
    open spec fn obeys_div_spec() -> bool {
        true
    }

    open spec fn div_req(self, rhs: StrengthReducedU128) -> bool {
        rhs.wf()
    }

    open spec fn div_spec(self, rhs: StrengthReducedU128) -> u128 {
        self / rhs.spec_divisor()
    }
}

impl core::ops::Rem<StrengthReducedU128> for u128 {
    type Output = u128;

    /// `self % rhs`, the same as `rhs.remainder(self)`.
    fn rem(self, rhs: StrengthReducedU128) -> (r: u128) {
        rhs.remainder(self)
    }
}

impl vstd::std_specs::ops::RemSpecImpl<StrengthReducedU128> for u128 {
    open spec fn obeys_rem_spec() -> bool {
        true
    }

    open spec fn rem_req(self, rhs: StrengthReducedU128) -> bool {
        rhs.wf()
    }

    open spec fn rem_spec(self, rhs: StrengthReducedU128) -> u128 {
        self % rhs.spec_divisor()
    }
}

} // verus!
