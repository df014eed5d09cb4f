//! Division of `u32` values by a fixed divisor.
use crate::arith::{
    lemma_remainder_by_subtraction,
    is_power_of_two,
    lemma_not_power_of_two_at_least_three,
    lemma_power_of_two_u32,
    lemma_reciprocal_exact,
    lemma_split_fits,
    lemma_split_high,
    multiplier_for,
};
use vstd::prelude::*;
use vstd::std_specs::bits::axiom_u32_trailing_zeros;

verus! {

/// Divides `u32` values by a fixed non-zero divisor with a multiplication and shifts.
///
/// Building one costs more than a single division; each division after that is cheaper.
#[derive(Clone, Copy, Debug)]
pub struct StrengthReducedU32 {
    multiplier: u64,
    divisor: u32,
}

impl StrengthReducedU32 {
    /// The divisor.
    pub closed spec fn spec_divisor(&self) -> u32 {
        self.divisor
    }

    /// The precomputed multiplier: zero when the divisor is a power of two.
    pub closed spec fn spec_multiplier(&self) -> nat {
        self.multiplier as nat
    }

    /// The divisor is non-zero and the multiplier is the one that belongs to it.
    pub closed spec fn wf(&self) -> bool {
        &&& self.divisor != 0
        &&& self.multiplier as nat == multiplier_for(self.divisor as nat, 0x1_0000_0000)
    }

    /// Prepares division by `divisor`.
    pub fn new(divisor: u32) -> (r: Self)
        requires
            divisor != 0,
        ensures
            r.wf(),
            r.spec_divisor() == divisor,
            r.spec_multiplier() == multiplier_for(divisor as nat, 0x1_0000_0000),
    {
        proof {
            lemma_power_of_two_u32(divisor, 0, 0);
        }
        if divisor & (divisor - 1) == 0 {
            Self { divisor, multiplier: 0 }
        } else {
            proof {
                lemma_not_power_of_two_at_least_three(divisor as nat);
                lemma_split_fits(0, divisor as int, 0x1_0000_0000);
            }
            let divided = u64::MAX / (divisor as u64);
            Self { divisor, multiplier: divided + 1 }
        }
    }

    /// Quotient and remainder of `numerator` by the divisor, as `(quotient, remainder)`.
    pub fn div_rem(numerator: u32, denom: Self) -> (r: (u32, u32))
        requires
            denom.wf(),
        ensures
            r.0 == numerator / denom.spec_divisor(),
            r.1 == numerator % denom.spec_divisor(),
    {
        let d = denom.divisor;
        proof {
            lemma_power_of_two_u32(d, 0, numerator);
        }
        if denom.multiplier == 0 {
            let t = d.trailing_zeros();
            proof {
                broadcast use axiom_u32_trailing_zeros;

                lemma_power_of_two_u32(d, t, numerator);
            }
            (numerator >> t, numerator & (d - 1))
        } else {
            let quotient = denom.divide(numerator);
            proof {
                lemma_remainder_by_subtraction(numerator as int, d as int);
            }
            let remainder = numerator - quotient * d;
            (quotient, remainder)
        }
    }

    /// The divisor this value was built from.
    pub fn get(&self) -> (r: u32)
        ensures
            r == self.spec_divisor(),
    {
        self.divisor
    }

    /// `num / divisor`.
    pub fn divide(&self, num: u32) -> (r: u32)
        requires
            self.wf(),
        ensures
            r == num / self.spec_divisor(),
    {
        let d = self.divisor;
        proof {
            lemma_power_of_two_u32(d, 0, num);
        }
        if self.multiplier == 0 {
            let t = d.trailing_zeros();
            proof {
                broadcast use axiom_u32_trailing_zeros;

                lemma_power_of_two_u32(d, t, num);
            }
            num >> t
        } else {
            let m = self.multiplier;
            proof {
                lemma_not_power_of_two_at_least_three(d as nat);
                lemma_reciprocal_exact(num as int, d as int, 0x1_0000_0000);
                lemma_split_high(num as int, m as int / 0x1_0000_0000, m as int % 0x1_0000_0000, 0x1_0000_0000);
                lemma_split_fits(num as int, d as int, 0x1_0000_0000);
                assert(m >> 32 == m / 0x1_0000_0000 && m as u32 as u64 == m % 0x1_0000_0000) by (bit_vector);
            }
            let numerator = num as u64;
            let multiplied_hi = numerator * (m >> 32);
            let product_lo = numerator * (m as u32 as u64);
            assert(product_lo >> 32 == product_lo / 0x1_0000_0000) by (bit_vector);
            let multiplied_lo = product_lo >> 32;
            let sum = multiplied_hi + multiplied_lo;
            assert(sum >> 32 == sum / 0x1_0000_0000) by (bit_vector);
            (sum >> 32) as u32
        }
    }

    /// `num % divisor`.
    pub fn remainder(&self, num: u32) -> (r: u32)
        requires
            self.wf(),
        ensures
            r == num % self.spec_divisor(),
    {
        let d = self.divisor;
        proof {
            lemma_power_of_two_u32(d, 0, num);
        }
        if self.multiplier == 0 {
            let t = d.trailing_zeros();
            proof {
                broadcast use axiom_u32_trailing_zeros;

                lemma_power_of_two_u32(d, t, num);
            }
            num & (d - 1)
        } else {
            proof {
                lemma_reciprocal_exact(num as int, d as int, 0x1_0000_0000);
            }
            let product = self.multiplier.wrapping_mul(num as u64) as u128;
            let divisor = d as u128;
            assert(product * divisor <= 0xffff_ffff_ffff_ffff * 0xffff_ffff) by (nonlinear_arith)
                requires
                    product <= 0xffff_ffff_ffff_ffff,
                    divisor <= 0xffff_ffff,
            ;
            let scaled = product * divisor;
            assert(scaled >> 64 == scaled / 0x1_0000_0000_0000_0000) by (bit_vector);
            (scaled >> 64) as u32
        }
    }

    /// Quotient times divisor plus remainder gives the numerator back, and the remainder is
    /// below the divisor.
    pub proof fn lemma_reconstruction(&self, n: u32)
        requires
            self.wf(),
        ensures
            (n / self.spec_divisor()) * self.spec_divisor() + n % self.spec_divisor() == n,
            n % self.spec_divisor() < self.spec_divisor(),
    {
        lemma_remainder_by_subtraction(n as int, self.spec_divisor() as int);
    }

    /// The multiplier is the zero sentinel exactly when the divisor is a power of two.
    pub proof fn lemma_power_of_two_sentinel(&self)
        requires
            self.wf(),
        ensures
            self.spec_multiplier() == 0 <==> is_power_of_two(self.spec_divisor() as nat),
    {
        if !is_power_of_two(self.spec_divisor() as nat) {
            lemma_not_power_of_two_at_least_three(self.spec_divisor() as nat);
            lemma_split_fits(0, self.spec_divisor() as int, 0x1_0000_0000);
        }
    }
}

impl core::ops::Div<StrengthReducedU32> for u32 {
    type Output = u32;

    /// `self / rhs`, the same as `rhs.divide(self)`.
    fn div(self, rhs: StrengthReducedU32) -> (r: u32) {
        rhs.divide(self)
    }
}

impl vstd::std_specs::ops::DivSpecImpl<StrengthReducedU32> for u32 {
    open spec fn obeys_div_spec() -> bool {
        true
    }

    open spec fn div_req(self, rhs: StrengthReducedU32) -> bool {
        rhs.wf()
    }

    open spec fn div_spec(self, rhs: StrengthReducedU32) -> u32 {
        self / rhs.spec_divisor()
    }
}

impl core::ops::Rem<StrengthReducedU32> for u32 {
    type Output = u32;

    /// `self % rhs`, the same as `rhs.remainder(self)`.
    fn rem(self, rhs: StrengthReducedU32) -> (r: u32) {
        rhs.remainder(self)
    }
}

impl vstd::std_specs::ops::RemSpecImpl<StrengthReducedU32> for u32 {
    open spec fn obeys_rem_spec() -> bool {
        true
    }

    open spec fn rem_req(self, rhs: StrengthReducedU32) -> bool {
        rhs.wf()
    }

    open spec fn rem_spec(self, rhs: StrengthReducedU32) -> u32 {
        self % rhs.spec_divisor()
    }
}

} // verus!
