//! Mathematical facts behind division by a precomputed reciprocal.
use vstd::arithmetic::div_mod::{
    lemma_div_denominator,
    lemma_fundamental_div_mod,
    lemma_fundamental_div_mod_converse,
    lemma_hoist_over_denominator,
    lemma_mod_breakdown,
};
use vstd::arithmetic::power2::{
    lemma2_to64,
    lemma_pow2_adds,
    lemma_pow2_pos,
    lemma_pow2_strictly_increases,
    lemma_pow2_unfold,
    pow2,
};
use vstd::bits::lemma_u128_shr_is_div;
use vstd::prelude::*;

verus! {

/// `d` is a power of two: `2^k` for some `k`.
pub open spec fn is_power_of_two(d: nat) -> bool {
    exists|k: nat| pow2(k) == d
}

/// The reciprocal multiplier for a divisor `d` of a `w`-valued word:
/// `floor((w * w - 1) / d) + 1`, that is `ceil(w * w / d)` when `d` does not divide `w * w`.
pub open spec fn reciprocal(d: int, w: int) -> int {
    (w * w - 1) / d + 1
}

/// With the rounded-up reciprocal `m` of `d`, the high word of `n * m` is `n / d`, and the
/// low word of `n * m`, multiplied by `d`, has `n % d` as its high word.
pub proof fn lemma_reciprocal_exact(n: int, d: int, w: int)
    requires
        0 <= n < w,
        1 <= d <= w,
    ensures
        (n * reciprocal(d, w)) / (w * w) == n / d,
        (n * reciprocal(d, w)) % (w * w) * d / (w * w) == n % d,
{
    let p = w * w;
    let m = reciprocal(d, w);
    assert(p >= 1) by (nonlinear_arith)
        requires
            w >= 1,
            p == w * w,
    ;
    lemma_fundamental_div_mod(p - 1, d);
    let s = (p - 1) % d;
    let e = d - 1 - s;
    assert(m * d == p + e) by (nonlinear_arith)
        requires
            p - 1 == d * ((p - 1) / d) + s,
            m == (p - 1) / d + 1,
            e == d - 1 - s,
    ;
    lemma_fundamental_div_mod(n, d);
    let q = n / d;
    let r = n % d;
    let f = q * e + r * m;
    assert(n * m == q * p + f) by (nonlinear_arith)
        requires
            n == d * q + r,
            m * d == p + e,
            f == q * e + r * m,
    ;
    assert(f * d == e * n + r * p) by (nonlinear_arith)
        requires
            n == d * q + r,
            m * d == p + e,
            f == q * e + r * m,
    ;
    assert(0 <= e * n < p) by (nonlinear_arith)
        requires
            0 <= e < d,
            d <= w,
            0 <= n < w,
            p == w * w,
    ;
    assert(0 <= f < p) by (nonlinear_arith)
        requires
            f * d == e * n + r * p,
            0 <= e * n < p,
            0 <= r < d,
            q >= 0,
            e >= 0,
            m >= 0,
            f == q * e + r * m,
    ;
    lemma_fundamental_div_mod_converse(n * m, p, q, f);
    lemma_fundamental_div_mod_converse(f * d, p, r, e * n);
}

/// The high word of `n * (hi * b + lo)` over a two-word base `b * b`, computed from the
/// partial products `n * hi` and `n * lo` without forming the full product.
pub proof fn lemma_split_high(n: int, hi: int, lo: int, b: int)
    requires
        n >= 0,
        hi >= 0,
        0 <= lo < b,
    ensures
        (n * hi + (n * lo) / b) / b == (n * (hi * b + lo)) / (b * b),
{
    assert(n * (hi * b + lo) == (n * lo) + (n * hi) * b) by (nonlinear_arith);
    lemma_hoist_over_denominator(n * lo, n * hi, b as nat);
    assert(n * lo >= 0) by (nonlinear_arith)
        requires
            n >= 0,
            lo >= 0,
    ;
    assert(n * (hi * b + lo) >= 0) by (nonlinear_arith)
        requires
            n >= 0,
            lo >= 0,
            hi >= 0,
            b > 0,
    ;
    lemma_div_denominator(n * (hi * b + lo), b, b);
}

/// `2^128`, the number of values of a `u128`.
pub proof fn lemma_pow2_128()
    ensures
        pow2(128) == 0x1_0000_0000_0000_0000_0000_0000_0000_0000,
{
    lemma2_to64();
    lemma_pow2_adds(64, 64);
}

/// `2^256`, the square of the number of values of a `u128`.
pub proof fn lemma_pow2_256()
    ensures
        pow2(256) == 0x1_0000_0000_0000_0000_0000_0000_0000_0000 * 0x1_0000_0000_0000_0000_0000_0000_0000_0000,
{
    lemma_pow2_128();
    lemma_pow2_adds(128, 128);
}

proof fn lemma_single_bit(k: nat)
    requires
        k < 128,
    ensures
        pow2(k) < 0x1_0000_0000_0000_0000_0000_0000_0000_0000,
        (pow2(k) as u128) & ((pow2(k) - 1) as u128) == 0,
    decreases k,
{
    lemma_pow2_pos(k);
    if k == 0 {
        lemma2_to64();
        assert(1u128 & 0u128 == 0) by (bit_vector);
    } else {
        lemma_single_bit((k - 1) as nat);
        lemma_pow2_unfold(k);
        let x = pow2((k - 1) as nat) as u128;
        lemma_pow2_pos((k - 1) as nat);
        lemma_pow2_128();
        lemma_pow2_strictly_increases(k, 128);
        assert(x < 0x8000_0000_0000_0000_0000_0000_0000_0000);
        assert(((2 * x) as u128) & ((2 * x - 1) as u128) == 0) by (bit_vector)
            requires
                x != 0,
                x & ((x - 1) as u128) == 0,
                x < 0x8000_0000_0000_0000_0000_0000_0000_0000,
        ;
    }
}

/// For a non-zero word, clearing its lowest set bit (`d & (d - 1)`) leaves zero exactly when
/// the word is a power of two.
pub proof fn lemma_power_of_two_test(d: u128)
    requires
        d != 0,
    ensures
        d & ((d - 1) as u128) == 0 <==> is_power_of_two(d as nat),
    decreases d,
{
    if d & ((d - 1) as u128) == 0 {
        if d == 1 {
            lemma2_to64();
            assert(pow2(0) == d);
        } else {
            let h = d / 2;
            assert(d % 2 == 0 && h != 0 && h & ((h - 1) as u128) == 0) by (bit_vector)
                requires
                    d & ((d - 1) as u128) == 0,
                    d != 0,
                    d != 1,
                    h == d / 2,
            ;
            lemma_power_of_two_test(h);
            let k = choose|k: nat| pow2(k) == h as nat;
            lemma_pow2_unfold(k + 1);
            assert(pow2(k + 1) == d as nat);
        }
    }
    if is_power_of_two(d as nat) {
        let k = choose|k: nat| pow2(k) == d as nat;
        lemma_pow2_128();
        if k >= 128 {
            if k > 128 {
                lemma_pow2_strictly_increases(128, k);
            }
        }
        lemma_single_bit(k);
    }
}

/// Masking with `2^k - 1` keeps the remainder modulo `2^k`.
proof fn lemma_low_mask(n: u128, k: nat)
    requires
        k < 128,
    ensures
        pow2(k) < 0x1_0000_0000_0000_0000_0000_0000_0000_0000,
        n & ((pow2(k) - 1) as u128) == n % (pow2(k) as u128),
    decreases k,
{
    lemma_pow2_pos(k);
    lemma_pow2_128();
    lemma_pow2_strictly_increases(k, 128);
    if k == 0 {
        lemma2_to64();
        assert(n & 0u128 == 0) by (bit_vector);
    } else {
        let j = (k - 1) as nat;
        lemma_pow2_unfold(k);
        lemma_pow2_pos(j);
        lemma_low_mask(n / 2, j);
        let m = (pow2(j) - 1) as u128;
        assert(n & ((2 * m + 1) as u128) == 2 * ((n / 2) & m) + n % 2) by (bit_vector)
            requires
                m < 0x8000_0000_0000_0000_0000_0000_0000_0000,
        ;
        lemma_mod_breakdown(n as int, 2, pow2(j) as int);
    }
}

/// For a power-of-two word `d` whose set bit is bit `t`, `d == 2^t`, shifting right by `t`
/// divides by `d`, and masking with `d - 1` takes the remainder by `d`.
pub proof fn lemma_shift_and_mask(d: u128, t: u128, n: u128)
    requires
        d != 0,
        d & ((d - 1) as u128) == 0,
        t < 128,
        (d >> t) & 1 == 1,
    ensures
        d as nat == pow2(t as nat),
        n >> t == n / d,
        n & ((d - 1) as u128) == n % d,
{
    assert(d >> t == 1 && ((d - 1) as u128) >> t == 0) by (bit_vector)
        requires
            d != 0,
            d & ((d - 1) as u128) == 0,
            t < 128,
            (d >> t) & 1 == 1,
    ;
    lemma_u128_shr_is_div(d, t);
    lemma_u128_shr_is_div((d - 1) as u128, t);
    lemma_u128_shr_is_div(n, t);
    lemma_pow2_pos(t as nat);
    lemma_fundamental_div_mod(d as int, pow2(t as nat) as int);
    lemma_fundamental_div_mod((d - 1) as int, pow2(t as nat) as int);
    assert(d as nat == pow2(t as nat));
    lemma_low_mask(n, t as nat);
}

/// The multiplier kept for divisor `d` of a `w`-valued word: zero for a power of two,
/// where division is a shift, and the rounded-up reciprocal otherwise.
pub open spec fn multiplier_for(d: nat, w: int) -> nat {
    if is_power_of_two(d) {
        0
    } else {
        reciprocal(d as int, w) as nat
    }
}

/// One and two are powers of two, so any other divisor is at least three.
pub proof fn lemma_not_power_of_two_at_least_three(d: nat)
    requires
        d >= 1,
        !is_power_of_two(d),
    ensures
        d >= 3,
{
    lemma2_to64();
    assert(pow2(0) == 1);
    assert(pow2(1) == 2);
}

/// The power-of-two test and the shift/mask fast path, for `u8` words.
pub proof fn lemma_power_of_two_u8(d: u8, t: u32, n: u8)
    requires
        d != 0,
    ensures
        d & ((d - 1) as u8) == 0 <==> is_power_of_two(d as nat),
        d & ((d - 1) as u8) == 0 && t < 8 && (d >> t as u8) & 1 == 1 ==> {
            &&& n >> t == n / d
            &&& n & ((d - 1) as u8) == n % d
        },
{
    let (dw, tw, nw) = (d as u128, t as u128, n as u128);
    assert(((d & ((d - 1) as u8)) as u128) == dw & ((dw - 1) as u128)) by (bit_vector)
        requires
            dw == d as u128,
            d != 0,
    ;
    lemma_power_of_two_test(dw);
    if d & ((d - 1) as u8) == 0 && t < 8 && (d >> t as u8) & 1 == 1 {
        assert((dw >> tw) & 1 == 1 && (n >> t) as u128 == nw >> tw && (n & ((d - 1) as u8)) as u128
            == nw & ((dw - 1) as u128)) by (bit_vector)
            requires
                dw == d as u128,
                tw == t as u128,
                nw == n as u128,
                d != 0,
                t < 8,
                (d >> t as u8) & 1 == 1,
        ;
        lemma_shift_and_mask(dw, tw, nw);
    }
}

/// The power-of-two test and the shift/mask fast path, for `u16` words.
pub proof fn lemma_power_of_two_u16(d: u16, t: u32, n: u16)
    requires
        d != 0,
    ensures
        d & ((d - 1) as u16) == 0 <==> is_power_of_two(d as nat),
        d & ((d - 1) as u16) == 0 && t < 16 && (d >> t as u16) & 1 == 1 ==> {
            &&& n >> t == n / d
            &&& n & ((d - 1) as u16) == n % d
        },
{
    let (dw, tw, nw) = (d as u128, t as u128, n as u128);
    assert(((d & ((d - 1) as u16)) as u128) == dw & ((dw - 1) as u128)) by (bit_vector)
        requires
            dw == d as u128,
            d != 0,
    ;
    lemma_power_of_two_test(dw);
    if d & ((d - 1) as u16) == 0 && t < 16 && (d >> t as u16) & 1 == 1 {
        assert((dw >> tw) & 1 == 1 && (n >> t) as u128 == nw >> tw && (n & ((d - 1) as u16)) as u128
            == nw & ((dw - 1) as u128)) by (bit_vector)
            requires
                dw == d as u128,
                tw == t as u128,
                nw == n as u128,
                d != 0,
                t < 16,
                (d >> t as u16) & 1 == 1,
        ;
        lemma_shift_and_mask(dw, tw, nw);
    }
}

/// The power-of-two test and the shift/mask fast path, for `u32` words.
pub proof fn lemma_power_of_two_u32(d: u32, t: u32, n: u32)
    requires
        d != 0,
    ensures
        d & ((d - 1) as u32) == 0 <==> is_power_of_two(d as nat),
        d & ((d - 1) as u32) == 0 && t < 32 && (d >> t as u32) & 1 == 1 ==> {
            &&& n >> t == n / d
            &&& n & ((d - 1) as u32) == n % d
        },
{
    let (dw, tw, nw) = (d as u128, t as u128, n as u128);
    assert(((d & ((d - 1) as u32)) as u128) == dw & ((dw - 1) as u128)) by (bit_vector)
        requires
            dw == d as u128,
            d != 0,
    ;
    lemma_power_of_two_test(dw);
    if d & ((d - 1) as u32) == 0 && t < 32 && (d >> t as u32) & 1 == 1 {
        assert((dw >> tw) & 1 == 1 && (n >> t) as u128 == nw >> tw && (n & ((d - 1) as u32)) as u128
            == nw & ((dw - 1) as u128)) by (bit_vector)
            requires
                dw == d as u128,
                tw == t as u128,
                nw == n as u128,
                d != 0,
                t < 32,
                (d >> t as u32) & 1 == 1,
        ;
        lemma_shift_and_mask(dw, tw, nw);
    }
}

/// The power-of-two test and the shift/mask fast path, for `u64` words.
pub proof fn lemma_power_of_two_u64(d: u64, t: u32, n: u64)
    requires
        d != 0,
    ensures
        d & ((d - 1) as u64) == 0 <==> is_power_of_two(d as nat),
        d & ((d - 1) as u64) == 0 && t < 64 && (d >> t as u64) & 1 == 1 ==> {
            &&& n >> t == n / d
            &&& n & ((d - 1) as u64) == n % d
        },
{
    let (dw, tw, nw) = (d as u128, t as u128, n as u128);
    assert(((d & ((d - 1) as u64)) as u128) == dw & ((dw - 1) as u128)) by (bit_vector)
        requires
            dw == d as u128,
            d != 0,
    ;
    lemma_power_of_two_test(dw);
    if d & ((d - 1) as u64) == 0 && t < 64 && (d >> t as u64) & 1 == 1 {
        assert((dw >> tw) & 1 == 1 && (n >> t) as u128 == nw >> tw && (n & ((d - 1) as u64)) as u128
            == nw & ((dw - 1) as u128)) by (bit_vector)
            requires
                dw == d as u128,
                tw == t as u128,
                nw == n as u128,
                d != 0,
                t < 64,
                (d >> t as u64) & 1 == 1,
        ;
        lemma_shift_and_mask(dw, tw, nw);
    }
}

/// For a divisor of at least three, the reciprocal fits in two words and each partial
/// product of the split multiplication fits in two words.
pub proof fn lemma_split_fits(n: int, d: int, b: int)
    requires
        0 <= n < b,
        3 <= d,
        b >= 2,
    ensures
        0 < reciprocal(d, b) < b * b,
        d < b ==> reciprocal(d, b) >= b,
        reciprocal(d, b) / b < b,
        n * (reciprocal(d, b) / b) < b * b,
        n * (reciprocal(d, b) % b) < b * b,
        n * (reciprocal(d, b) / b) + n * (reciprocal(d, b) % b) / b < b * b,
{
    let m = reciprocal(d, b);
    let bb = b * b;
    assert(bb >= 4) by (nonlinear_arith)
        requires
            b >= 2,
            bb == b * b,
    ;
    assert(m * 2 <= bb) by (nonlinear_arith)
        requires
            m == (bb - 1) / d + 1,
            d >= 3,
            bb >= 4,
    ;
    lemma_fundamental_div_mod(bb - 1, d);
    assert(d < b ==> m >= b) by (nonlinear_arith)
        requires
            bb - 1 == d * ((bb - 1) / d) + (bb - 1) % d,
            0 <= (bb - 1) % d < d,
            m == (bb - 1) / d + 1,
            bb == b * b,
            d >= 3,
    ;
    let hi = m / b;
    let lo = m % b;
    lemma_fundamental_div_mod(m, b);
    assert(hi * 2 <= b) by (nonlinear_arith)
        requires
            m == b * hi + lo,
            0 <= lo < b,
            m * 2 <= bb,
            bb == b * b,
            b >= 2,
    ;
    assert(n * hi < bb && n * lo < bb && n * hi + n * lo / b < bb) by (nonlinear_arith)
        requires
            0 <= n < b,
            0 <= lo < b,
            0 <= hi,
            hi * 2 <= b,
            bb == b * b,
    ;
}

/// Taking the quotient times the divisor away from the numerator leaves the remainder.
pub proof fn lemma_remainder_by_subtraction(n: int, d: int)
    requires
        n >= 0,
        d > 0,
    ensures
        0 <= (n / d) * d <= n,
        n - (n / d) * d == n % d,
{
    lemma_fundamental_div_mod(n, d);
    assert((n / d) * d == d * (n / d)) by (nonlinear_arith);
    assert(n / d >= 0) by (nonlinear_arith)
        requires
            n >= 0,
            d > 0,
    ;
    assert((n / d) * d >= 0) by (nonlinear_arith)
        requires
            n / d >= 0,
            d > 0,
    ;
}

} // verus!
