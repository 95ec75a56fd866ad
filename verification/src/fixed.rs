//! Fixed-point scalar arithmetic: truncating multiplication and the radial
//! seeding kernel, with the bounds the rest of the crate builds on.

use vstd::prelude::*;

verus! {

use vstd::arithmetic::div_mod::{
    lemma_div_is_ordered,
    lemma_div_is_ordered_by_denominator,
    lemma_div_multiples_vanish,
    lemma_div_nonincreasing,
    lemma_div_pos_is_pos,
    lemma_fundamental_div_mod,
};
use crate::SCALE;

/// `exp(-1)`, fixed-point.
pub const EXP_NEG_ONE: i64 = 367_879;

/// `1 / sqrt(2 * pi)`, fixed-point.
pub const INV_SQRT_2PI: i64 = 398_942;

/// Division truncated toward zero, for a positive divisor. This is the
/// rounding every executable fixed-point operation in the crate uses.
pub open spec fn trunc_div(a: int, d: int) -> int
    recommends
        d > 0,
{
    if a >= 0 {
        a / d
    } else {
        -((-a) / d)
    }
}

/// Fixed-point product: the integer product rescaled by `SCALE`, truncated
/// toward zero.
pub open spec fn fp_mul_spec(a: int, b: int) -> int {
    trunc_div(a * b, SCALE as int)
}

/// Truncating division shrinks magnitudes: a bound on the dividend bounds the
/// quotient symmetrically.
pub proof fn lemma_trunc_div_bounds(a: int, b: int, d: int)
    requires
        0 < d,
        0 <= b,
        -b <= a <= b,
    ensures
        -(b / d) <= trunc_div(a, d) <= b / d,
        0 <= b / d <= b,
{
    lemma_div_pos_is_pos(b, d);
    lemma_div_nonincreasing(b, d);
    if a >= 0 {
        lemma_div_pos_is_pos(a, d);
        lemma_div_is_ordered(a, b, d);
    } else {
        lemma_div_pos_is_pos(-a, d);
        lemma_div_is_ordered(-a, b, d);
    }
}

/// A fixed-point product with one factor at most `SCALE` never grows the
/// other (nonnegative) factor.
pub proof fn lemma_fp_mul_le_left(a: int, b: int)
    requires
        0 <= a,
        0 <= b <= SCALE as int,
    ensures
        0 <= fp_mul_spec(a, b) <= a,
{
    assert(0 <= a * b <= a * SCALE) by (nonlinear_arith)
        requires
            0 <= a,
            0 <= b <= SCALE as int,
    ;
    lemma_div_pos_is_pos(a * b, SCALE as int);
    lemma_div_is_ordered(a * b, a * SCALE, SCALE as int);
    lemma_div_multiples_vanish(a, SCALE as int);
    assert(SCALE * a == a * SCALE) by (nonlinear_arith);
}

/// Magnitude bound for a fixed-point product, from bounds on the factors.
pub proof fn lemma_fp_mul_bounds(a: int, b: int, aa: int, bb: int)
    requires
        0 <= aa,
        0 <= bb,
        -aa <= a <= aa,
        -bb <= b <= bb,
    ensures
        -(aa * bb) <= a * b <= aa * bb,
        -((aa * bb) / SCALE as int) <= fp_mul_spec(a, b) <= (aa * bb) / SCALE as int,
        0 <= (aa * bb) / SCALE as int,
{
    assert(-(aa * bb) <= a * b <= aa * bb) by (nonlinear_arith)
        requires
            0 <= aa,
            0 <= bb,
            -aa <= a <= aa,
            -bb <= b <= bb,
    ;
    assert(0 <= aa * bb) by (nonlinear_arith)
        requires
            0 <= aa,
            0 <= bb,
    ;
    lemma_trunc_div_bounds(a * b, aa * bb, SCALE as int);
}

/// `a / d` on nonnegative operands; machine division agrees with the
/// mathematical (Euclidean) one here.
pub fn div_nn(a: i64, d: i64) -> (r: i64)
    requires
        0 <= a,
        0 < d,
    ensures
        r == a as int / d as int,
{
    proof {
        lemma_div_pos_is_pos(a as int, d as int);
        lemma_div_nonincreasing(a as int, d as int);
    }
    ((a as u64) / (d as u64)) as i64
}

/// Fixed-point multiply on wide intermediates; the caller bounds the product.
pub fn fp_mul_wide(a: i128, b: i128) -> (r: i128)
    requires
        i128::MIN < a * b <= i128::MAX,
    ensures
        r == fp_mul_spec(a as int, b as int),
{
    let p: i128 = a * b;
    if p >= 0 {
        proof {
            lemma_div_pos_is_pos(p as int, SCALE as int);
            lemma_div_nonincreasing(p as int, SCALE as int);
        }
        ((p as u128) / (SCALE as u128)) as i128
    } else {
        proof {
            lemma_div_pos_is_pos(-(p as int), SCALE as int);
            lemma_div_nonincreasing(-(p as int), SCALE as int);
        }
        -((((-p) as u128) / (SCALE as u128)) as i128)
    }
}

/// `exp(-n) * SCALE` for a whole number `n`, defined as `n` successive
/// fixed-point multiplications by `EXP_NEG_ONE`.
pub open spec fn exp_neg_whole_spec(n: nat) -> int
    decreases n,
{
    if n == 0 {
        SCALE as int
    } else {
        fp_mul_spec(exp_neg_whole_spec((n - 1) as nat), EXP_NEG_ONE as int)
    }
}

/// Once the whole-part product truncates to zero it stays zero.
pub proof fn lemma_exp_neg_whole_zero(m: nat, n: nat)
    requires
        m <= n,
        exp_neg_whole_spec(m) == 0,
    ensures
        exp_neg_whole_spec(n) == 0,
    decreases n,
{
    if n > m {
        lemma_exp_neg_whole_zero(m, (n - 1) as nat);
        lemma_fp_mul_le_left(0, EXP_NEG_ONE as int);
    }
}

fn exp_neg_whole(n: u64) -> (r: i64)
    ensures
        r == exp_neg_whole_spec(n as nat),
        0 <= r <= SCALE,
{
    let mut acc: i64 = SCALE;
    let mut i: u64 = 0;
    while i < n
        invariant
            0 <= i <= n,
            acc == exp_neg_whole_spec(i as nat),
            0 <= acc <= SCALE,
        decreases n - i,
    {
        if acc == 0 {
            proof {
                lemma_exp_neg_whole_zero(i as nat, n as nat);
            }
            return 0;
        }
        proof {
            lemma_fp_mul_le_left(acc as int, EXP_NEG_ONE as int);
        }
        acc = div_nn(acc * EXP_NEG_ONE, SCALE);
        i = i + 1;
    }
    acc
}

/// Truncated Taylor series for `exp(-f)` on `0 <= f < 1` (fixed point):
/// `1 - f + f^2/2 - f^3/6 + f^4/24`, every product truncated toward zero.
pub open spec fn exp_neg_frac_spec(f: int) -> int {
    let a = fp_mul_spec(f, f);
    let af = fp_mul_spec(a, f);
    let aff = fp_mul_spec(af, f);
    SCALE - f + a / 2 - af / 6 + aff / 24
}

fn exp_neg_frac(f: i64) -> (r: i64)
    requires
        0 <= f < SCALE,
    ensures
        r == exp_neg_frac_spec(f as int),
        0 <= r <= SCALE,
{
    proof {
        assert(0 <= f * f <= f * SCALE) by (nonlinear_arith)
            requires
                0 <= f < SCALE,
        ;
        lemma_div_is_ordered(f * f, f * SCALE, SCALE as int);
        lemma_div_multiples_vanish(f as int, SCALE as int);
        assert(SCALE * f == f * SCALE) by (nonlinear_arith);
        lemma_div_pos_is_pos(f * f, SCALE as int);
    }
    let a = div_nn(f * f, SCALE);
    proof {
        lemma_fp_mul_le_left(a as int, f as int);
    }
    let af = div_nn(a * f, SCALE);
    proof {
        lemma_fp_mul_le_left(af as int, f as int);
    }
    let aff = div_nn(af * f, SCALE);
    let t2 = div_nn(a, 2);
    let t3 = div_nn(af, 6);
    let t4 = div_nn(aff, 24);
    proof {
        // af <= a, so the negative third term never outweighs the second.
        lemma_div_is_ordered(af as int, a as int, 6);
        lemma_div_is_ordered_by_denominator(a as int, 2, 6);
        // t2 + t4 <= f/2 + f/24 <= f, so the sum stays at most SCALE.
        lemma_div_is_ordered(a as int, f as int, 2);
        lemma_div_is_ordered(aff as int, f as int, 24);
        lemma_div_is_ordered_by_denominator(f as int, 2, 24);
        lemma_fundamental_div_mod(f as int, 2);
    }
    SCALE - f + t2 - t3 + t4
}

/// `exp(-q) * SCALE` for fixed-point `q >= 0`: the whole-number part by
/// repeated multiplication, the fractional part by the Taylor series, then
/// one fixed-point product.
pub open spec fn exp_neg_spec(q: int) -> int
    recommends
        q >= 0,
{
    fp_mul_spec(
        exp_neg_whole_spec((q / SCALE as int) as nat),
        exp_neg_frac_spec(q % SCALE as int),
    )
}

fn exp_neg(q: u128) -> (r: i64)
    requires
        q / (SCALE as u128) <= u64::MAX,
    ensures
        r == exp_neg_spec(q as int),
        0 <= r <= SCALE,
{
    let n: u64 = (q / (SCALE as u128)) as u64;
    let f: i64 = (q % (SCALE as u128)) as i64;
    let w = exp_neg_whole(n);
    let fr = exp_neg_frac(f);
    proof {
        lemma_fp_mul_le_left(w as int, fr as int);
        assert(0 <= w * fr) by (nonlinear_arith)
            requires
                0 <= w,
                0 <= fr,
        ;
        assert(w * fr <= SCALE * SCALE) by (nonlinear_arith)
            requires
                0 <= w <= SCALE,
                0 <= fr <= SCALE,
        ;
    }
    div_nn(w * fr, SCALE)
}

/// The radial seeding kernel, fixed-point:
/// `exp(-r2 / (2 sigma^2)) / (sqrt(2 pi) sigma) * sigma`. The trailing
/// `sigma` factor cancels the one in the denominator, leaving
/// `exp(-r2 / (2 sigma^2)) / sqrt(2 pi)`; the non-standard normalization is
/// kept deliberately rather than corrected to a true Gaussian density.
/// `r2` is the squared Euclidean distance, `s2` is `sigma^2`, both
/// fixed-point.
pub open spec fn gauss_kernel_spec(r2: int, s2: int) -> int
    recommends
        0 <= r2,
        1 <= s2,
{
    fp_mul_spec(exp_neg_spec(trunc_div(r2 * SCALE as int, 2 * s2)), INV_SQRT_2PI as int)
}

pub fn gauss_kernel(r2: i64, s2: i64) -> (r: i64)
    requires
        0 <= r2,
        1 <= s2,
    ensures
        r == gauss_kernel_spec(r2 as int, s2 as int),
        0 <= r <= INV_SQRT_2PI,
{
    let q: u128 = (r2 as u128) * (SCALE as u128) / (2 * (s2 as u128));
    proof {
        assert(r2 as u128 * SCALE as u128 == (r2 * SCALE) as u128) by (nonlinear_arith)
            requires
                0 <= r2 <= i64::MAX,
        ;
        lemma_div_pos_is_pos(r2 * SCALE, 2 * s2 as int);
        lemma_div_is_ordered_by_denominator(r2 * SCALE, 2, 2 * s2 as int);
        lemma_div_is_ordered_by_denominator(r2 * SCALE, 1, 2);
        assert(r2 * SCALE / 1 == r2 * SCALE);
        // q <= r2 * SCALE, so q / SCALE <= r2 <= u64::MAX.
        lemma_div_is_ordered(q as int, r2 * SCALE, SCALE as int);
        lemma_div_multiples_vanish(r2 as int, SCALE as int);
        assert(SCALE * r2 == r2 * SCALE) by (nonlinear_arith);
    }
    let e = exp_neg(q);
    proof {
        lemma_fp_mul_le_left(e as int, INV_SQRT_2PI as int);
        assert(0 <= e * INV_SQRT_2PI <= SCALE * INV_SQRT_2PI) by (nonlinear_arith)
            requires
                0 <= e <= SCALE,
        ;
        // The kernel is bounded by its value at distance zero.
        assert(fp_mul_spec(e as int, INV_SQRT_2PI as int) <= INV_SQRT_2PI) by {
            lemma_div_is_ordered(e * INV_SQRT_2PI, SCALE * INV_SQRT_2PI, SCALE as int);
            lemma_div_multiples_vanish(INV_SQRT_2PI as int, SCALE as int);
        }
    }
    div_nn(e * INV_SQRT_2PI, SCALE)
}

} // verus!
