//! Division of `u16` values by a fixed divisor.
use crate::arith::{
    lemma_remainder_by_subtraction,
    is_power_of_two,
    lemma_not_power_of_two_at_least_three,
    lemma_power_of_two_u16,
    lemma_reciprocal_exact,
    lemma_split_fits,
    lemma_split_high,
    multiplier_for,
};
use vstd::prelude::*;
use vstd::std_specs::bits::axiom_u16_trailing_zeros;

verus! {

/// Divides `u16` values by a fixed non-zero divisor with a multiplication and shifts.
///
/// Building one costs more than a single division; each division after that is cheaper.
#[derive(Clone, Copy, Debug)]
pub struct StrengthReducedU16 {
    multiplier: u32,
    divisor: u16,
}

impl StrengthReducedU16 {
    /// The divisor.
    pub closed spec fn spec_divisor(&self) -> u16 {
        self.divisor
    }

    /// The precomputed multiplier: zero when the divisor is a power of two.
    pub closed spec fn spec_multiplier(&self) -> nat {
        self.multiplier as nat
    }

    /// The divisor is non-zero and the multiplier is the one that belongs to it.
    pub closed spec fn wf(&self) -> bool {
        &&& self.divisor != 0
        &&& self.multiplier as nat == multiplier_for(self.divisor as nat, 0x1_0000)
    }

    /// Prepares division by `divisor`.
    pub fn new(divisor: u16) -> (r: Self)
        requires
            divisor != 0,
        ensures
            r.wf(),
            r.spec_divisor() == divisor,
            r.spec_multiplier() == multiplier_for(divisor as nat, 0x1_0000),
    {
        proof {
            lemma_power_of_two_u16(divisor, 0, 0);
        }
        if divisor & (divisor - 1) == 0 {
            Self { divisor, multiplier: 0 }
        } else {
            proof {
                lemma_not_power_of_two_at_least_three(divisor as nat);
                lemma_split_fits(0, divisor as int, 0x1_0000);
            }
            let divided = u32::MAX / (divisor as u32);
            Self { divisor, multiplier: divided + 1 }
        }
    }

    /// Quotient and remainder of `numerator` by the divisor, as `(quotient, remainder)`.
    pub fn div_rem(numerator: u16, denom: Self) -> (r: (u16, u16))
        requires
            denom.wf(),
        ensures
            r.0 == numerator / denom.spec_divisor(),
            r.1 == numerator % denom.spec_divisor(),
    {
        let quotient = denom.divide(numerator);
        proof {
            lemma_remainder_by_subtraction(numerator as int, denom.divisor as int);
        }
        let remainder = numerator - quotient * denom.get();
        (quotient, remainder)
    }

    /// The divisor this value was built from.
    pub fn get(&self) -> (r: u16)
        ensures
            r == self.spec_divisor(),
    {
        self.divisor
    }

    /// `num / divisor`.
    pub fn divide(&self, num: u16) -> (r: u16)
        requires
            self.wf(),
        ensures
            r == num / self.spec_divisor(),
    {
        let d = self.divisor;
        proof {
            lemma_power_of_two_u16(d, 0, num);
        }
        if self.multiplier == 0 {
            let t = d.trailing_zeros();
            proof {
                broadcast use axiom_u16_trailing_zeros;

                lemma_power_of_two_u16(d, t, num);
            }
            num >> t
        } else {
            let m = self.multiplier;
            proof {
                lemma_not_power_of_two_at_least_three(d as nat);
                lemma_reciprocal_exact(num as int, d as int, 0x1_0000);
                lemma_split_high(num as int, m as int / 0x1_0000, m as int % 0x1_0000, 0x1_0000);
                lemma_split_fits(num as int, d as int, 0x1_0000);
                assert(m >> 16 == m / 0x1_0000 && m as u16 as u32 == m % 0x1_0000) by (bit_vector);
            }
            let numerator = num as u32;
            let multiplied_hi = numerator * (m >> 16);
            let product_lo = numerator * (m as u16 as u32);
            assert(product_lo >> 16 == product_lo / 0x1_0000) by (bit_vector);
            let multiplied_lo = product_lo >> 16;
            let sum = multiplied_hi + multiplied_lo;
            assert(sum >> 16 == sum / 0x1_0000) by (bit_vector);
            (sum >> 16) as u16
        }
    }

    /// `num % divisor`.
    pub fn remainder(&self, num: u16) -> (r: u16)
        requires
            self.wf(),
        ensures
            r == num % self.spec_divisor(),
    {
        let d = self.divisor;
        proof {
            lemma_power_of_two_u16(d, 0, num);
        }
        if self.multiplier == 0 {
            let t = d.trailing_zeros();
            proof {
                broadcast use axiom_u16_trailing_zeros;

                lemma_power_of_two_u16(d, t, num);
            }
            num & (d - 1)
        } else {
            let quotient = self.divide(num);
            proof {
                lemma_remainder_by_subtraction(num as int, d as int);
            }
            num - quotient * self.get()
        }
    }

    /// Quotient times divisor plus remainder gives the numerator back, and the remainder is
    /// below the divisor.
    pub proof fn lemma_reconstruction(&self, n: u16)
        requires
            self.wf(),
        ensures
            (n / self.spec_divisor()) * self.spec_divisor() + n % self.spec_divisor() == n,
            n % self.spec_divisor() < self.spec_divisor(),
    {
        lemma_remainder_by_subtraction(n as int, self.spec_divisor() as int);
    }

    /// The multiplier is the zero sentinel exactly when the divisor is a power of two.
    pub proof fn lemma_power_of_two_sentinel(&self)
        requires
            self.wf(),
        ensures
            self.spec_multiplier() == 0 <==> is_power_of_two(self.spec_divisor() as nat),
    {
        if !is_power_of_two(self.spec_divisor() as nat) {
            lemma_not_power_of_two_at_least_three(self.spec_divisor() as nat);
            lemma_split_fits(0, self.spec_divisor() as int, 0x1_0000);
        }
    }
}

impl core::ops::Div<StrengthReducedU16> for u16 {
    type Output = u16;

    /// `self / rhs`, the same as `rhs.divide(self)`.
    fn div(self, rhs: StrengthReducedU16) -> (r: u16) {
        rhs.divide(self)
    }
}

impl vstd::std_specs::ops::DivSpecImpl<StrengthReducedU16> for u16 {
    open spec fn obeys_div_spec() -> bool {
        true
    }

    open spec fn div_req(self, rhs: StrengthReducedU16) -> bool {
        rhs.wf()
    }

    open spec fn div_spec(self, rhs: StrengthReducedU16) -> u16 {
        self / rhs.spec_divisor()
    }
}

impl core::ops::Rem<StrengthReducedU16> for u16 {
    type Output = u16;

    /// `self % rhs`, the same as `rhs.remainder(self)`.
    fn rem(self, rhs: StrengthReducedU16) -> (r: u16) {
        rhs.remainder(self)
    }
}

impl vstd::std_specs::ops::RemSpecImpl<StrengthReducedU16> for u16 {
    open spec fn obeys_rem_spec() -> bool {
        true
    }

    open spec fn rem_req(self, rhs: StrengthReducedU16) -> bool {
        rhs.wf()
    }

    open spec fn rem_spec(self, rhs: StrengthReducedU16) -> u16 {
        self % rhs.spec_divisor()
    }
}

} // verus!
