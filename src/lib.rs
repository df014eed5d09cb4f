//! Division and remainder by a divisor that is fixed at run time, computed with a
//! precomputed reciprocal multiplier and shifts instead of a hardware division.
//!
//! Build one engine per divisor, outside the hot loop, and divide many numerators by it:
//! `StrengthReducedU64::new(d)` prepares the multiplier, and then `n / engine`,
//! `n % engine`, `engine.divide(n)`, `engine.remainder(n)` and
//! `StrengthReducedU64::div_rem(n, engine)` give `n / d` and `n % d`.
//!
//! The divisor must be non-zero; that is a precondition of every constructor. A power of
//! two keeps a zero multiplier and divides by shifting and masking.
pub mod arith;
mod long_division;
mod long_multiplication;
pub mod reduced_u128;
pub mod reduced_u16;
pub mod reduced_u32;
pub mod reduced_u64;
pub mod reduced_u8;
pub mod reduced_usize;

pub use reduced_u128::StrengthReducedU128;
pub use reduced_u16::StrengthReducedU16;
pub use reduced_u32::StrengthReducedU32;
pub use reduced_u64::StrengthReducedU64;
pub use reduced_u8::StrengthReducedU8;
pub use reduced_usize::StrengthReducedUsize;
