//! Division of pointer-sized values by a fixed divisor, with the 64-bit algorithm.
use crate::arith::{
    is_power_of_two,
    lemma_not_power_of_two_at_least_three,
    lemma_remainder_by_subtraction,
    lemma_split_fits,
    multiplier_for,
};
use crate::reduced_u64::{div_rem_u64, divide_u64, multiplier_u64, remainder_u64};
use vstd::prelude::*;

verus! {

/// Divides pointer-sized values by a fixed non-zero divisor with a multiplication and shifts.
///
/// Building one costs more than a single division; each division after that is cheaper.
#[derive(Clone, Copy, Debug)]
pub struct StrengthReducedUsize {
    multiplier: u128,
    divisor: usize,
}

impl StrengthReducedUsize {
    /// The divisor.
    pub closed spec fn spec_divisor(&self) -> usize {
        self.divisor
    }

    /// The precomputed multiplier: zero when the divisor is a power of two.
    pub closed spec fn spec_multiplier(&self) -> nat {
        self.multiplier as nat
    }

    /// The divisor is non-zero and the multiplier is the one that belongs to it.
    pub closed spec fn wf(&self) -> bool {
        &&& self.divisor != 0
        &&& self.multiplier as nat == multiplier_for(self.divisor as nat, 0x1_0000_0000_0000_0000)
    }

    /// Prepares division by `divisor`.
    pub fn new(divisor: usize) -> (r: Self)
        requires
            divisor != 0,
        ensures
            r.wf(),
            r.spec_divisor() == divisor,
            r.spec_multiplier() == multiplier_for(divisor as nat, 0x1_0000_0000_0000_0000),
    {
        Self { divisor, multiplier: multiplier_u64(divisor as u64) }
    }

    /// Quotient and remainder of `numerator` by the divisor, as `(quotient, remainder)`.
    pub fn div_rem(numerator: usize, denom: Self) -> (r: (usize, usize))
        requires
            denom.wf(),
        ensures
            r.0 == numerator / denom.spec_divisor(),
            r.1 == numerator % denom.spec_divisor(),
    {
        let (quotient, remainder) = div_rem_u64(denom.divisor as u64, denom.multiplier, numerator as u64);
        (quotient as usize, remainder as usize)
    }

    /// The divisor this value was built from.
    pub fn get(&self) -> (r: usize)
        ensures
            r == self.spec_divisor(),
    {
        self.divisor
    }

    /// `num / divisor`.
    pub fn divide(&self, num: usize) -> (r: usize)
        requires
            self.wf(),
        ensures
            r == num / self.spec_divisor(),
    {
        divide_u64(self.divisor as u64, self.multiplier, num as u64) as usize
    }

    /// `num % divisor`.
    pub fn remainder(&self, num: usize) -> (r: usize)
        requires
            self.wf(),
        ensures
            r == num % self.spec_divisor(),
    {
        remainder_u64(self.divisor as u64, self.multiplier, num as u64) as usize
    }

    /// Quotient times divisor plus remainder gives the numerator back, and the remainder is
    /// below the divisor.
    pub proof fn lemma_reconstruction(&self, n: usize)
        requires
            self.wf(),
        ensures
            (n / self.spec_divisor()) * self.spec_divisor() + n % self.spec_divisor() == n,
            n % self.spec_divisor() < self.spec_divisor(),
    {
        lemma_remainder_by_subtraction(n as int, self.spec_divisor() as int);
    }

    /// The multiplier is the zero sentinel exactly when the divisor is a power of two.
    pub proof fn lemma_power_of_two_sentinel(&self)
        requires
            self.wf(),
        ensures
            self.spec_multiplier() == 0 <==> is_power_of_two(self.spec_divisor() as nat),
    {
        if !is_power_of_two(self.spec_divisor() as nat) {
            lemma_not_power_of_two_at_least_three(self.spec_divisor() as nat);
            lemma_split_fits(0, self.spec_divisor() as int, 0x1_0000_0000_0000_0000);
        }
    }
}

impl core::ops::Div<StrengthReducedUsize> for usize {
    type Output = usize;

    /// `self / rhs`, the same as `rhs.divide(self)`.
    fn div(self, rhs: StrengthReducedUsize) -> (r: usize) {
        rhs.divide(self)
    }
}

impl vstd::std_specs::ops::DivSpecImpl<StrengthReducedUsize> for usize {
    open spec fn obeys_div_spec() -> bool {
        true
    }

    open spec fn div_req(self, rhs: StrengthReducedUsize) -> bool {
        rhs.wf()
    }

    open spec fn div_spec(self, rhs: StrengthReducedUsize) -> usize {
        self / rhs.spec_divisor()
    }
}

impl core::ops::Rem<StrengthReducedUsize> for usize {
    type Output = usize;

    /// `self % rhs`, the same as `rhs.remainder(self)`.
    fn rem(self, rhs: StrengthReducedUsize) -> (r: usize) {
        rhs.remainder(self)
    }
}

impl vstd::std_specs::ops::RemSpecImpl<StrengthReducedUsize> for usize {
    open spec fn obeys_rem_spec() -> bool {
        true
    }

    open spec fn rem_req(self, rhs: StrengthReducedUsize) -> bool {
        rhs.wf()
    }

    open spec fn rem_spec(self, rhs: StrengthReducedUsize) -> usize {
        self % rhs.spec_divisor()
    }
}

} // verus!
