//! The high 128 bits of a 256-bit by 128-bit product, by schoolbook multiplication on
//! 64-bit limbs.
use vstd::arithmetic::div_mod::lemma_fundamental_div_mod_converse;
use vstd::arithmetic::mul::{lemma_mul_inequality, lemma_mul_is_associative, lemma_mul_is_distributive_add};
use vstd::prelude::*;

verus! {

/// The value of one limb position above the previous one: `2^64`.
pub open spec fn limb_base() -> int {
    0x1_0000_0000_0000_0000
}

/// The weight of limb `i`: `2^(64 * i)`.
pub open spec fn limb_weight(i: nat) -> int
    decreases i,
{
    if i == 0 {
        1
    } else {
        limb_base() * limb_weight((i - 1) as nat)
    }
}

/// The number that a little-endian sequence of 64-bit limbs stands for.
pub open spec fn limbs_value(s: Seq<u64>) -> int
    decreases s.len(),
{
    if s.len() == 0 {
        0
    } else {
        limbs_value(s.take(s.len() - 1)) + s[s.len() - 1] * limb_weight((s.len() - 1) as nat)
    }
}

proof fn lemma_weight_positive(i: nat)
    ensures
        limb_weight(i) > 0,
    decreases i,
{
    if i > 0 {
        lemma_weight_positive((i - 1) as nat);
        assert(limb_base() * limb_weight((i - 1) as nat) > 0) by (nonlinear_arith)
            requires
                limb_weight((i - 1) as nat) > 0,
        ;
    }
}

proof fn lemma_weight_adds(i: nat, j: nat)
    ensures
        limb_weight(i + j) == limb_weight(i) * limb_weight(j),
    decreases j,
{
    if j > 0 {
        lemma_weight_adds(i, (j - 1) as nat);
        assert(limb_weight(i + j) == limb_base() * limb_weight((i + j - 1) as nat));
        lemma_mul_is_associative(limb_base(), limb_weight(i), limb_weight((j - 1) as nat));
        lemma_mul_is_associative(limb_weight(i), limb_base(), limb_weight((j - 1) as nat));
        assert(limb_base() * limb_weight(i) == limb_weight(i) * limb_base()) by (nonlinear_arith);
    }
}

proof fn lemma_value_bounds(s: Seq<u64>)
    ensures
        0 <= limbs_value(s) < limb_weight(s.len()),
    decreases s.len(),
{
    if s.len() > 0 {
        let k = (s.len() - 1) as nat;
        lemma_value_bounds(s.take(k as int));
        lemma_weight_positive(k);
        let v = limbs_value(s.take(k as int));
        let w = limb_weight(k);
        let x = s[k as int] as int;
        assert(0 <= v + x * w < limb_base() * w) by (nonlinear_arith)
            requires
                0 <= v < w,
                0 <= x < limb_base(),
        ;
    }
}

proof fn lemma_value_take_step(s: Seq<u64>, i: int)
    requires
        0 <= i < s.len(),
    ensures
        limbs_value(s.take(i + 1)) == limbs_value(s.take(i)) + s[i] * limb_weight(i as nat),
{
    assert(s.take(i + 1).take(i) =~= s.take(i));
}

proof fn lemma_value_update(s: Seq<u64>, j: int, v: u64)
    requires
        0 <= j < s.len(),
    ensures
        limbs_value(s.update(j, v)) == limbs_value(s) + (v - s[j]) * limb_weight(j as nat),
    decreases s.len(),
{
    let k = s.len() - 1;
    let t = s.update(j, v);
    if j == k {
        assert(t.take(k) =~= s.take(k));
        assert(v * limb_weight(j as nat) == s[j] * limb_weight(j as nat) + (v - s[j]) * limb_weight(
            j as nat,
        )) by (nonlinear_arith);
    } else {
        assert(t.take(k) =~= s.take(k).update(j, v));
        lemma_value_update(s.take(k), j, v);
    }
}

/// `product + a * b * 2^(64 * start)` modulo `2^384`, where `a` is four limbs and `b` one
/// limb, added into the six-limb `product` with carries; a carry out of the top limb is
/// dropped. The limbs below `start` are left as they are, and a zero `b` changes nothing.
fn multiply_256_by_64_helper(product: [u64; 6], start: usize, a: &[u64; 4], b: u64) -> (r: [u64; 6])
    requires
        b == 0 || start <= 2,
    ensures
        limbs_value(r@) == (limbs_value(product@) + limbs_value(a@) * b * limb_weight(start as nat))
            % limb_weight(6),
        b == 0 ==> r == product,
        forall|k: int| 0 <= k < start ==> r[k] == product[k],
{
    let ghost p0 = product@;
    let mut product = product;
    proof {
        lemma_value_bounds(p0);
        lemma_weight_positive(6);
    }
    if b != 0 {
        let ghost orig = limbs_value(product@);
        let ghost ws = limb_weight(start as nat);
        let mut carry: u128 = 0;
        let mut i: usize = 0;
        let mut j: usize = start;
        while i < 4
            invariant
                0 <= i <= 4,
                j == start + i,
                start <= 2,
                carry < limb_base(),
                ws == limb_weight(start as nat),
                forall|k: int| 0 <= k < start ==> product@[k] == p0[k],
                limbs_value(product@) + carry * limb_weight(j as nat) == orig + limbs_value(a@.take(i as int)) * b * ws,
            decreases 4 - i,
        {
            let ghost before = product@;
            let ghost c0: int = carry as int;
            let pj = product[j];
            let ai = a[i];
            assert((ai as u128) * (b as u128) <= 0xffff_ffff_ffff_ffff * 0xffff_ffff_ffff_ffff) by (nonlinear_arith)
                requires
                    ai <= 0xffff_ffff_ffff_ffff,
                    b <= 0xffff_ffff_ffff_ffff,
            ;
            carry += pj as u128;
            carry += (ai as u128) * (b as u128);
            product[j] = carry as u64;
            let ghost c1: int = carry as int;
            carry >>= 64;
            proof {
                let cw = c1 as u128;
                assert(cw >> 64 == cw / 0x1_0000_0000_0000_0000 && cw as u64 == cw % 0x1_0000_0000_0000_0000) by (bit_vector);
                lemma_value_update(before, j as int, cw as u64);
                lemma_value_take_step(a@, i as int);
                lemma_weight_adds(start as nat, i as nat);
                let wj = limb_weight(j as nat);
                assert(limb_weight((j + 1) as nat) == limb_base() * wj);
                assert(c1 == (c1 / limb_base()) * limb_base() + c1 % limb_base());
                assert((c1 % limb_base()) * wj + (c1 / limb_base()) * (limb_base() * wj) == c1 * wj) by (nonlinear_arith)
                    requires
                        c1 == (c1 / limb_base()) * limb_base() + c1 % limb_base(),
                ;
                assert((cw as u64 - pj) * wj == (c1 % limb_base()) * wj - pj * wj) by (nonlinear_arith)
                    requires
                        cw as u64 == c1 % limb_base(),
                ;
                assert(c1 * wj == c0 * wj + pj * wj + (ai * b) * (limb_weight(start as nat) * limb_weight(i as nat))) by (nonlinear_arith)
                    requires
                        c1 == c0 + pj + ai * b,
                        wj == limb_weight(start as nat) * limb_weight(i as nat),
                ;
                assert(limbs_value(a@.take(i + 1)) * b * ws == limbs_value(a@.take(i as int)) * b * ws + (ai * b) * (ws * limb_weight(i as nat))) by (nonlinear_arith)
                    requires
                        limbs_value(a@.take(i + 1)) == limbs_value(a@.take(i as int)) + ai * limb_weight(i as nat),
                ;
            }
            i += 1;
            j += 1;
        }
        assert(a@.take(4) =~= a@);
        while carry != 0 && j < 6
            invariant
                start + 4 <= j <= 6,
                carry < limb_base(),
                forall|k: int| 0 <= k < start ==> product@[k] == p0[k],
                limbs_value(product@) + carry * limb_weight(j as nat) == orig + limbs_value(a@) * b * ws,
            decreases 6 - j,
        {
            let ghost before = product@;
            let ghost c0: int = carry as int;
            let pj = product[j];
            carry += pj as u128;
            product[j] = carry as u64;
            let ghost c1: int = carry as int;
            carry >>= 64;
            proof {
                let cw = c1 as u128;
                assert(cw >> 64 == cw / 0x1_0000_0000_0000_0000 && cw as u64 == cw % 0x1_0000_0000_0000_0000) by (bit_vector);
                lemma_value_update(before, j as int, cw as u64);
                let wj = limb_weight(j as nat);
                assert(limb_weight((j + 1) as nat) == limb_base() * wj);
                assert(c1 == (c1 / limb_base()) * limb_base() + c1 % limb_base());
                assert((c1 % limb_base()) * wj + (c1 / limb_base()) * (limb_base() * wj) == c1 * wj) by (nonlinear_arith)
                    requires
                        c1 == (c1 / limb_base()) * limb_base() + c1 % limb_base(),
                ;
                assert((cw as u64 - pj) * wj == (c1 % limb_base()) * wj - pj * wj) by (nonlinear_arith)
                    requires
                        cw as u64 == c1 % limb_base(),
                ;
                assert(c1 * wj == c0 * wj + pj * wj) by (nonlinear_arith)
                    requires
                        c1 == c0 + pj,
                ;
            }
            j += 1;
        }
        proof {
            lemma_value_bounds(product@);
            lemma_fundamental_div_mod_converse(
                orig + limbs_value(a@) * b * ws,
                limb_weight(6),
                carry as int,
                limbs_value(product@),
            );
        }
    } else {
        assert(limbs_value(a@) * b * limb_weight(start as nat) == 0) by (nonlinear_arith)
            requires
                b == 0,
        ;
        proof {
            lemma_fundamental_div_mod_converse(limbs_value(p0), limb_weight(6), 0int, limbs_value(p0));
        }
    }
    product
}

proof fn lemma_zero_value(s: Seq<u64>)
    requires
        forall|i: int| 0 <= i < s.len() ==> s[i] == 0,
    ensures
        limbs_value(s) == 0,
    decreases s.len(),
{
    if s.len() > 0 {
        lemma_zero_value(s.take(s.len() - 1));
    }
}

proof fn lemma_low_weights()
    ensures
        limb_weight(1) == limb_base(),
        limb_weight(2) == limb_base() * limb_base(),
        limb_weight(3) == limb_base() * limb_base() * limb_base(),
        limb_weight(4) == limb_base() * limb_base() * limb_base() * limb_base(),
        limb_weight(5) == limb_weight(4) * limb_base(),
        limb_weight(6) == limb_weight(4) * limb_weight(2),
{
    reveal_with_fuel(limb_weight, 7);
    lemma_weight_adds(4, 2);
    lemma_weight_adds(4, 1);
    assert(limb_base() * (limb_base() * (limb_base() * limb_base())) == limb_base() * limb_base()
        * limb_base() * limb_base()) by (nonlinear_arith);
    assert(limb_base() * (limb_base() * limb_base()) == limb_base() * limb_base() * limb_base())
        by (nonlinear_arith);
}

proof fn lemma_four_limbs(s: Seq<u64>)
    requires
        s.len() == 4,
    ensures
        limbs_value(s) == s[0] + s[1] * limb_base() + (s[2] + s[3] * limb_base()) * (limb_base()
            * limb_base()),
{
    lemma_value_take_step(s, 0);
    lemma_value_take_step(s, 1);
    lemma_value_take_step(s, 2);
    lemma_value_take_step(s, 3);
    assert(s.take(0).len() == 0);
    assert(s.take(4) =~= s);
    lemma_low_weights();
    reveal_with_fuel(limb_weight, 2);
    let b = limb_base();
    assert(s[2] * (b * b) + s[3] * (b * b * b) == (s[2] + s[3] * b) * (b * b)) by (nonlinear_arith);
}

proof fn lemma_six_limbs_high(s: Seq<u64>)
    requires
        s.len() == 6,
    ensures
        limbs_value(s) / limb_weight(4) == s[4] + s[5] * limb_base(),
{
    lemma_value_take_step(s, 4);
    lemma_value_take_step(s, 5);
    assert(s.take(6) =~= s);
    lemma_value_bounds(s.take(4));
    lemma_low_weights();
    let w4 = limb_weight(4);
    let v = limbs_value(s.take(4));
    assert(limbs_value(s) == (s[4] + s[5] * limb_base()) * w4 + v) by (nonlinear_arith)
        requires
            limbs_value(s) == v + s[4] * w4 + s[5] * limb_weight(5),
            limb_weight(5) == w4 * limb_base(),
    ;
    lemma_fundamental_div_mod_converse(limbs_value(s), w4, s[4] + s[5] * limb_base(), v);
}

/// The high 128 bits of the 384-bit product of the 256-bit number `a_hi * 2^128 + a_lo`
/// and `b`.
pub(crate) fn multiply_256_by_128_upperbits(a_hi: u128, a_lo: u128, b: u128) -> (r: u128)
    ensures
        r == (a_hi * (limb_base() * limb_base()) + a_lo) * b / (limb_base() * limb_base()
            * limb_base() * limb_base()),
{
    let a_chunks: [u64; 4] = [
        #[verifier::truncate]
        (a_lo as u64),
        #[verifier::truncate]
        ((a_lo >> 64) as u64),
        #[verifier::truncate]
        (a_hi as u64),
        #[verifier::truncate]
        ((a_hi >> 64) as u64),
    ];
    let b_chunks: [u64; 2] = [
        #[verifier::truncate]
        (b as u64),
        #[verifier::truncate]
        ((b >> 64) as u64),
    ];
    let zeros: [u64; 6] = [0; 6];
    let ghost a = a_hi * (limb_base() * limb_base()) + a_lo;
    let ghost b0 = b_chunks[0] as int;
    let ghost b1 = b_chunks[1] as int;
    proof {
        assert(a_lo == (a_lo as u64) + ((a_lo >> 64) as u64) * 0x1_0000_0000_0000_0000) by (bit_vector);
        assert(a_hi == (a_hi as u64) + ((a_hi >> 64) as u64) * 0x1_0000_0000_0000_0000) by (bit_vector);
        assert(b == (b as u64) + ((b >> 64) as u64) * 0x1_0000_0000_0000_0000) by (bit_vector);
        lemma_four_limbs(a_chunks@);
        lemma_value_bounds(a_chunks@);
        lemma_low_weights();
        reveal_with_fuel(limbs_value, 7);
        lemma_zero_value(zeros@);
        assert(a * b0 < limb_weight(6) && a * b0 + a * b1 * limb_base() == a * b && a * b < limb_weight(6)) by (nonlinear_arith)
            requires
                0 <= a < limb_weight(4),
                0 <= b0 < limb_base(),
                0 <= b1 < limb_base(),
                b == b0 + b1 * limb_base(),
                limb_weight(6) == limb_weight(4) * (limb_base() * limb_base()),
        ;
    }
    let product = multiply_256_by_64_helper(zeros, 0, &a_chunks, b_chunks[0]);
    let product = multiply_256_by_64_helper(product, 1, &a_chunks, b_chunks[1]);
    proof {
        lemma_weight_positive(6);
        lemma_fundamental_div_mod_converse(a * b0, limb_weight(6), 0int, a * b0);
        lemma_fundamental_div_mod_converse(a * b, limb_weight(6), 0int, a * b);
        lemma_six_limbs_high(product@);
    }
    let p5 = product[5];
    let p4 = product[4];
    assert(((p5 as u128) << 64) | (p4 as u128) == p4 + p5 * 0x1_0000_0000_0000_0000) by (bit_vector);
    ((p5 as u128) << 64) | (p4 as u128)
}

} // verus!
