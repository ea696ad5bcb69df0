use vstd::arithmetic::div_mod::lemma_div_is_ordered;
use vstd::arithmetic::div_mod::lemma_div_multiples_vanish;
use vstd::arithmetic::div_mod::lemma_div_nonincreasing;
use vstd::arithmetic::div_mod::lemma_div_pos_is_pos;
use vstd::arithmetic::mul::lemma_mul_inequality;
use vstd::arithmetic::mul::lemma_mul_nonnegative;
use vstd::arithmetic::mul::lemma_mul_unary_negation;
use vstd::prelude::*;

verus! {

/// Largest magnitude a breakpoint, a value or a query may have.
///
/// With every operand bounded by `2^30`, each difference fits in `2^31`,
/// each product of two differences in `2^62`, and every sum of a quotient
/// and a table value stays strictly below `2^63`: no lookup can overflow
/// an `i64`.
pub const MAX_MAGNITUDE: i64 = 0x4000_0000;

/// Division rounding toward zero — what Rust's `/` computes — expressed
/// over the Euclidean division of mathematical integers.  Meaningful for a
/// positive divisor, the only kind a table ever divides by.
pub open spec fn div_trunc(a: int, b: int) -> int {
    if a >= 0 {
        a / b
    } else {
        -((-a) / b)
    }
}

/// For a positive divisor, the quotient is no larger in magnitude than the
/// dividend, and keeps its sign.
pub proof fn lemma_div_trunc_magnitude(a: int, b: int)
    requires
        b >= 1,
    ensures
        a >= 0 ==> 0 <= div_trunc(a, b) <= a,
        a < 0 ==> a <= div_trunc(a, b) <= 0,
{
    if a >= 0 {
        lemma_div_pos_is_pos(a, b);
        lemma_div_nonincreasing(a, b);
    } else {
        lemma_div_pos_is_pos(-a, b);
        lemma_div_nonincreasing(-a, b);
    }
}

/// Blending a difference `d` by the fraction `a / c` with `0 <= a <= c`
/// cannot overshoot: the truncated quotient lies between `0` and `d`.
/// This is why an interpolated value always stays between its two
/// neighbouring table values.
pub proof fn lemma_blend_bounded(a: int, c: int, d: int)
    requires
        0 <= a <= c,
        c >= 1,
    ensures
        d >= 0 ==> 0 <= div_trunc(a * d, c) <= d,
        d < 0 ==> d <= div_trunc(a * d, c) <= 0,
{
    if d >= 0 {
        lemma_mul_nonnegative(a, d);
        lemma_mul_inequality(a, c, d);
        lemma_div_is_ordered(a * d, c * d, c);
        lemma_div_multiples_vanish(d, c);
        assert(c * d == d * c) by {
            vstd::arithmetic::mul::lemma_mul_is_commutative(c, d);
        }
        lemma_div_pos_is_pos(a * d, c);
    } else {
        lemma_mul_unary_negation(a, d);
        assert(-(a * d) == a * (-d));
        lemma_mul_nonnegative(a, -d);
        lemma_mul_inequality(a, c, -d);
        lemma_div_is_ordered(a * (-d), c * (-d), c);
        lemma_div_multiples_vanish(-d, c);
        assert(c * (-d) == (-d) * c) by {
            vstd::arithmetic::mul::lemma_mul_is_commutative(c, -d);
        }
        lemma_div_pos_is_pos(a * (-d), c);
    }
}

/// Two factors within twice [`MAX_MAGNITUDE`] multiply to something well
/// inside `i64`.
pub(crate) proof fn lemma_product_in_range(x: int, d: int)
    requires
        -0x8000_0000 <= x <= 0x8000_0000,
        -0x8000_0000 <= d <= 0x8000_0000,
    ensures
        -0x4000_0000_0000_0000 <= x * d <= 0x4000_0000_0000_0000,
{
    assert(-0x4000_0000_0000_0000 <= x * d <= 0x4000_0000_0000_0000) by (nonlinear_arith)
        requires
            -0x8000_0000 <= x <= 0x8000_0000,
            -0x8000_0000 <= d <= 0x8000_0000,
    ;
}

/// Quotient by a positive divisor; Rust's `/` truncates toward zero.
pub(crate) fn div_q(a: i64, b: i64) -> (r: i64)
    requires
        b >= 1,
        a > i64::MIN,
    ensures
        r as int == div_trunc(a as int, b as int),
{
    proof {
        lemma_div_trunc_magnitude(a as int, b as int);
    }
    a / b
}

} // verus!
