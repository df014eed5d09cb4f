//! Division of `u8` values by a fixed divisor.
use crate::arith::{
    lemma_split_fits,
    lemma_remainder_by_subtraction,
    is_power_of_two,
    lemma_not_power_of_two_at_least_three,
    lemma_power_of_two_u8,
    lemma_reciprocal_exact,
    lemma_split_high,
    multiplier_for,
};
use vstd::prelude::*;
use vstd::std_specs::bits::axiom_u8_trailing_zeros;

verus! {

/// Divides `u8` values by a fixed non-zero divisor with a multiplication and shifts.
///
/// Building one costs more than a single division; each division after that is cheaper.
#[derive(Clone, Copy, Debug)]
pub struct StrengthReducedU8 {
    multiplier: u16,
    divisor: u8,
}

impl StrengthReducedU8 {
    /// The divisor.
    pub closed spec fn spec_divisor(&self) -> u8 {
        self.divisor
    }

    /// The precomputed multiplier: zero when the divisor is a power of two.
    pub closed spec fn spec_multiplier(&self) -> nat {
        self.multiplier as nat
    }

    /// The divisor is non-zero and the multiplier is the one that belongs to it.
    pub closed spec fn wf(&self) -> bool {
        &&& self.divisor != 0
        &&& self.multiplier as nat == multiplier_for(self.divisor as nat, 0x100)
    }

    /// Prepares division by `divisor`.
    pub fn new(divisor: u8) -> (r: Self)
        requires
            divisor != 0,
        ensures
            r.wf(),
            r.spec_divisor() == divisor,
            r.spec_multiplier() == multiplier_for(divisor as nat, 0x100),
    {
        proof {
            lemma_power_of_two_u8(divisor, 0, 0);
        }
        if divisor & (divisor - 1) == 0 {
            Self { divisor, multiplier: 0 }
        } else {
            proof {
                lemma_not_power_of_two_at_least_three(divisor as nat);
            }
            let divided = u16::MAX / (divisor as u16);
            assert(divided < u16::MAX) by (nonlinear_arith)
                requires
                    divisor >= 3,
                    divided == u16::MAX / (divisor as u16),
            ;
            Self { divisor, multiplier: divided + 1 }
        }
    }

    /// Quotient and remainder of `numerator` by the divisor, as `(quotient, remainder)`.
    pub fn div_rem(numerator: u8, denom: Self) -> (r: (u8, u8))
        requires
            denom.wf(),
        ensures
            r.0 == numerator / denom.spec_divisor(),
            r.1 == numerator % denom.spec_divisor(),
    {
        (denom.divide(numerator), denom.remainder(numerator))
    }

    /// The divisor this value was built from.
    pub fn get(&self) -> (r: u8)
        ensures
            r == self.spec_divisor(),
    {
        self.divisor
    }

    /// `num / divisor`.
    pub fn divide(&self, num: u8) -> (r: u8)
        requires
            self.wf(),
        ensures
            r == num / self.spec_divisor(),
    {
        let d = self.divisor;
        proof {
            lemma_power_of_two_u8(d, 0, num);
        }
        if self.multiplier == 0 {
            let t = d.trailing_zeros();
            proof {
                broadcast use axiom_u8_trailing_zeros;

                lemma_power_of_two_u8(d, t, num);
            }
            num >> t
        } else {
            let m = self.multiplier;
            proof {
                lemma_not_power_of_two_at_least_three(d as nat);
                lemma_reciprocal_exact(num as int, d as int, 0x100);
                lemma_split_high(num as int, m as int / 0x100, m as int % 0x100, 0x100);
                assert(m >> 8 == m / 0x100 && m as u8 as u16 == m % 0x100) by (bit_vector);
            }
            let numerator = num as u16;
            assert(numerator * (m >> 8) <= 0xff * 0xff) by (nonlinear_arith)
                requires
                    numerator <= 0xff,
                    m >> 8 <= 0xff,
            ;
            let multiplied_hi = numerator * (m >> 8);
            assert(numerator * (m as u8 as u16) <= 0xff * 0xff) by (nonlinear_arith)
                requires
                    numerator <= 0xff,
                    m as u8 as u16 <= 0xff,
            ;
            let product_lo = numerator * (m as u8 as u16);
            let multiplied_lo = product_lo >> 8;
            assert(product_lo >> 8 == product_lo / 0x100) by (bit_vector);
            let sum = multiplied_hi + multiplied_lo;
            assert(sum >> 8 == sum / 0x100) by (bit_vector);
            (sum >> 8) as u8
        }
    }

    /// `num % divisor`.
    pub fn remainder(&self, num: u8) -> (r: u8)
        requires
            self.wf(),
        ensures
            r == num % self.spec_divisor(),
    {
        let d = self.divisor;
        proof {
            lemma_power_of_two_u8(d, 0, num);
        }
        if self.multiplier == 0 {
            let t = d.trailing_zeros();
            proof {
                broadcast use axiom_u8_trailing_zeros;

                lemma_power_of_two_u8(d, t, num);
            }
            num & (d - 1)
        } else {
            proof {
                lemma_reciprocal_exact(num as int, d as int, 0x100);
            }
            let product = self.multiplier.wrapping_mul(num as u16) as u32;
            let divisor = d as u32;
            assert(product * divisor <= 0xffff * 0xff) by (nonlinear_arith)
                requires
                    product <= 0xffff,
                    divisor <= 0xff,
            ;
            let scaled = product * divisor;
            assert(scaled >> 16 == scaled / 0x10000) by (bit_vector);
            (scaled >> 16) as u8
        }
    }

    /// Quotient times divisor plus remainder gives the numerator back, and the remainder is
    /// below the divisor.
    pub proof fn lemma_reconstruction(&self, n: u8)
        requires
            self.wf(),
        ensures
            (n / self.spec_divisor()) * self.spec_divisor() + n % self.spec_divisor() == n,
            n % self.spec_divisor() < self.spec_divisor(),
    {
        lemma_remainder_by_subtraction(n as int, self.spec_divisor() as int);
    }

    /// The multiplier is the zero sentinel exactly when the divisor is a power of two.
    pub proof fn lemma_power_of_two_sentinel(&self)
        requires
            self.wf(),
        ensures
            self.spec_multiplier() == 0 <==> is_power_of_two(self.spec_divisor() as nat),
    {
        if !is_power_of_two(self.spec_divisor() as nat) {
            lemma_not_power_of_two_at_least_three(self.spec_divisor() as nat);
            lemma_split_fits(0, self.spec_divisor() as int, 0x100);
        }
    }
}

impl core::ops::Div<StrengthReducedU8> for u8 {
    type Output = u8;

    /// `self / rhs`, the same as `rhs.divide(self)`.
    fn div(self, rhs: StrengthReducedU8) -> (r: u8) {
        rhs.divide(self)
    }
}

impl vstd::std_specs::ops::DivSpecImpl<StrengthReducedU8> for u8 {
    open spec fn obeys_div_spec() -> bool {
        true
    }

    open spec fn div_req(self, rhs: StrengthReducedU8) -> bool {
        rhs.wf()
    }

    open spec fn div_spec(self, rhs: StrengthReducedU8) -> u8 {
        self / rhs.spec_divisor()
    }
}

impl core::ops::Rem<StrengthReducedU8> for u8 {
    type Output = u8;

    /// `self % rhs`, the same as `rhs.remainder(self)`.
    fn rem(self, rhs: StrengthReducedU8) -> (r: u8) {
        rhs.remainder(self)
    }
}

impl vstd::std_specs::ops::RemSpecImpl<StrengthReducedU8> for u8 {
    open spec fn obeys_rem_spec() -> bool {
        true
    }

    open spec fn rem_req(self, rhs: StrengthReducedU8) -> bool {
        rhs.wf()
    }

    open spec fn rem_spec(self, rhs: StrengthReducedU8) -> u8 {
        self % rhs.spec_divisor()
    }
}

} // verus!
