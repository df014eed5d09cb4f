//! Division of `u64` values by a fixed divisor.
use crate::arith::{
    lemma_remainder_by_subtraction,
    is_power_of_two,
    lemma_not_power_of_two_at_least_three,
    lemma_power_of_two_u64,
    lemma_reciprocal_exact,
    lemma_split_fits,
    lemma_split_high,
    multiplier_for,
    reciprocal,
};
use crate::long_division::divide_128_max_by_64;
use vstd::prelude::*;
use vstd::std_specs::bits::axiom_u64_trailing_zeros;

verus! {

/// The multiplier for a 64-bit divisor: zero for a power of two, else the rounded-up
/// reciprocal `(2^128 - 1) / d + 1`.
pub(crate) fn multiplier_u64(d: u64) -> (m: u128)
    requires
        d != 0,
    ensures
        m as nat == multiplier_for(d as nat, 0x1_0000_0000_0000_0000),
{
    proof {
        lemma_power_of_two_u64(d, 0, 0);
    }
    if d & (d - 1) == 0 {
        0
    } else {
        proof {
            lemma_not_power_of_two_at_least_three(d as nat);
            lemma_split_fits(0, d as int, 0x1_0000_0000_0000_0000);
        }
        let quotient = divide_128_max_by_64(d);
        quotient + 1
    }
}

/// `n / d`, given the multiplier that belongs to `d`.
pub(crate) fn divide_u64(d: u64, m: u128, n: u64) -> (r: u64)
    requires
        d != 0,
        m as nat == multiplier_for(d as nat, 0x1_0000_0000_0000_0000),
    ensures
        r == n / d,
{
    proof {
        lemma_power_of_two_u64(d, 0, n);
    }
    if m == 0 {
        let t = d.trailing_zeros();
        proof {
            broadcast use axiom_u64_trailing_zeros;

            lemma_power_of_two_u64(d, t, n);
        }
        n >> t
    } else {
        let ghost b: int = 0x1_0000_0000_0000_0000int;
        proof {
            lemma_not_power_of_two_at_least_three(d as nat);
            lemma_reciprocal_exact(n as int, d as int, b);
            lemma_split_high(n as int, m as int / b, m as int % b, b);
            lemma_split_fits(n as int, d as int, b);
            assert(m >> 64 == m / 0x1_0000_0000_0000_0000 && m as u64 as u128 == m
                % 0x1_0000_0000_0000_0000) by (bit_vector);
        }
        let numerator = n as u128;
        let multiplied_hi = numerator * (m >> 64);
        let product_lo = numerator * (m as u64 as u128);
        assert(product_lo >> 64 == product_lo / 0x1_0000_0000_0000_0000) by (bit_vector);
        let multiplied_lo = product_lo >> 64;
        let sum = multiplied_hi + multiplied_lo;
        assert(sum >> 64 == sum / 0x1_0000_0000_0000_0000) by (bit_vector);
        (sum >> 64) as u64
    }
}

/// `n % d`, given the multiplier that belongs to `d`.
pub(crate) fn remainder_u64(d: u64, m: u128, n: u64) -> (r: u64)
    requires
        d != 0,
        m as nat == multiplier_for(d as nat, 0x1_0000_0000_0000_0000),
    ensures
        r == n % d,
{
    proof {
        lemma_power_of_two_u64(d, 0, n);
    }
    if m == 0 {
        let t = d.trailing_zeros();
        proof {
            broadcast use axiom_u64_trailing_zeros;

            lemma_power_of_two_u64(d, t, n);
        }
        n & (d - 1)
    } else {
        let quotient = divide_u64(d, m, n);
        proof {
            lemma_remainder_by_subtraction(n as int, d as int);
        }
        n - quotient * d
    }
}

/// `(n / d, n % d)`, given the multiplier that belongs to `d`.
pub(crate) fn div_rem_u64(d: u64, m: u128, n: u64) -> (r: (u64, u64))
    requires
        d != 0,
        m as nat == multiplier_for(d as nat, 0x1_0000_0000_0000_0000),
    ensures
        r.0 == n / d,
        r.1 == n % d,
{
    proof {
        lemma_power_of_two_u64(d, 0, n);
    }
    if m == 0 {
        let t = d.trailing_zeros();
        proof {
            broadcast use axiom_u64_trailing_zeros;

            lemma_power_of_two_u64(d, t, n);
        }
        (n >> t, n & (d - 1))
    } else {
        let quotient = divide_u64(d, m, n);
        proof {
            lemma_remainder_by_subtraction(n as int, d as int);
        }
        (quotient, n - quotient * d)
    }
}

/// Divides `u64` values by a fixed non-zero divisor with a multiplication and shifts.
///
/// Building one costs more than a single division; each division after that is cheaper.
#[derive(Clone, Copy, Debug)]
pub struct StrengthReducedU64 {
    multiplier: u128,
    divisor: u64,
}

impl StrengthReducedU64 {
    /// The divisor.
    pub closed spec fn spec_divisor(&self) -> u64 {
        self.divisor
    }

    /// The precomputed multiplier: zero when the divisor is a power of two.
    pub closed spec fn spec_multiplier(&self) -> nat {
        self.multiplier as nat
    }

    /// The divisor is non-zero and the multiplier is the one that belongs to it.
    pub closed spec fn wf(&self) -> bool {
        &&& self.divisor != 0
        &&& self.multiplier as nat == multiplier_for(self.divisor as nat, 0x1_0000_0000_0000_0000)
    }

    /// Prepares division by `divisor`.
    pub fn new(divisor: u64) -> (r: Self)
        requires
            divisor != 0,
        ensures
            r.wf(),
            r.spec_divisor() == divisor,
            r.spec_multiplier() == multiplier_for(divisor as nat, 0x1_0000_0000_0000_0000),
    {
        Self { divisor, multiplier: multiplier_u64(divisor) }
    }

    /// Quotient and remainder of `numerator` by the divisor, as `(quotient, remainder)`.
    pub fn div_rem(numerator: u64, denom: Self) -> (r: (u64, u64))
        requires
            denom.wf(),
        ensures
            r.0 == numerator / denom.spec_divisor(),
            r.1 == numerator % denom.spec_divisor(),
    {
        div_rem_u64(denom.divisor, denom.multiplier, numerator)
    }

    /// The divisor this value was built from.
    pub fn get(&self) -> (r: u64)
        ensures
            r == self.spec_divisor(),
    {
        self.divisor
    }

    /// `num / divisor`.
    pub fn divide(&self, num: u64) -> (r: u64)
        requires
            self.wf(),
        ensures
            r == num / self.spec_divisor(),
    {
        divide_u64(self.divisor, self.multiplier, num)
    }

    /// `num % divisor`.
    pub fn remainder(&self, num: u64) -> (r: u64)
        requires
            self.wf(),
        ensures
            r == num % self.spec_divisor(),
    {
        remainder_u64(self.divisor, self.multiplier, num)
    }

    /// Quotient times divisor plus remainder gives the numerator back, and the remainder is
    /// below the divisor.
    pub proof fn lemma_reconstruction(&self, n: u64)
        requires
            self.wf(),
        ensures
            (n / self.spec_divisor()) * self.spec_divisor() + n % self.spec_divisor() == n,
            n % self.spec_divisor() < self.spec_divisor(),
    {
        lemma_remainder_by_subtraction(n as int, self.spec_divisor() as int);
    }

    /// The multiplier is the zero sentinel exactly when the divisor is a power of two.
    pub proof fn lemma_power_of_two_sentinel(&self)
        requires
            self.wf(),
        ensures
            self.spec_multiplier() == 0 <==> is_power_of_two(self.spec_divisor() as nat),
    {
        if !is_power_of_two(self.spec_divisor() as nat) {
            lemma_not_power_of_two_at_least_three(self.spec_divisor() as nat);
            lemma_split_fits(0, self.spec_divisor() as int, 0x1_0000_0000_0000_0000);
        }
    }
}

impl core::ops::Div<StrengthReducedU64> for u64 {
    type Output = u64;

    /// `self / rhs`, the same as `rhs.divide(self)`.
    fn div(self, rhs: StrengthReducedU64) -> (r: u64) {
        rhs.divide(self)
    }
}

impl vstd::std_specs::ops::DivSpecImpl<StrengthReducedU64> for u64 {
    open spec fn obeys_div_spec() -> bool {
        true
    }

    open spec fn div_req(self, rhs: StrengthReducedU64) -> bool {
        rhs.wf()
    }

    open spec fn div_spec(self, rhs: StrengthReducedU64) -> u64 {
        self / rhs.spec_divisor()
    }
}

impl core::ops::Rem<StrengthReducedU64> for u64 {
    type Output = u64;

    /// `self % rhs`, the same as `rhs.remainder(self)`.
    fn rem(self, rhs: StrengthReducedU64) -> (r: u64) {
        rhs.remainder(self)
    }
}

impl vstd::std_specs::ops::RemSpecImpl<StrengthReducedU64> for u64 {
    open spec fn obeys_rem_spec() -> bool {
        true
    }

    open spec fn rem_req(self, rhs: StrengthReducedU64) -> bool {
        rhs.wf()
    }

    open spec fn rem_spec(self, rhs: StrengthReducedU64) -> u64 {
        self % rhs.spec_divisor()
    }
}

} // verus!
