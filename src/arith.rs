//! Integer facts behind rounding-directed interpolation and its inverse.
use vstd::prelude::*;
use vstd::arithmetic::div_mod::{
    lemma_div_is_ordered,
    lemma_div_multiples_vanish,
    lemma_div_pos_is_pos,
    lemma_fundamental_div_mod,
    lemma_hoist_over_denominator,
    lemma_multiply_divide_le,
    lemma_multiply_divide_lt,
};
use vstd::arithmetic::mul::{lemma_mul_inequality, lemma_mul_is_commutative};

verus! {

/// `d * r / s` rounded down lies in `[0, d]` when `0 <= r < s`.
pub proof fn lemma_scaled_down_bounds(d: int, r: int, s: int)
    requires
        d >= 0,
        0 <= r < s,
    ensures
        0 <= (d * r) / s <= d,
{
    lemma_mul_inequality(r, s, d);
    lemma_mul_is_commutative(r, d);
    lemma_mul_is_commutative(s, d);
    assert(0 <= d * r) by (nonlinear_arith)
        requires
            d >= 0,
            r >= 0,
    ;
    lemma_div_pos_is_pos(d * r, s);
    lemma_multiply_divide_le(d * r, s, d);
}

/// `d * r / s` rounded up lies in `[0, d]` when `0 <= r < s`.
pub proof fn lemma_scaled_up_bounds(d: int, r: int, s: int)
    requires
        d >= 0,
        0 <= r < s,
    ensures
        0 <= (d * r + s - 1) / s <= d,
{
    assert(0 <= d * r && d * r + s - 1 < s * (d + 1)) by (nonlinear_arith)
        requires
            d >= 0,
            0 <= r < s,
    ;
    lemma_div_pos_is_pos(d * r + s - 1, s);
    lemma_multiply_divide_lt(d * r + s - 1, s, d + 1);
}

/// Scaling by a larger fraction never gives a smaller result, in either
/// rounding direction.
pub proof fn lemma_scaled_monotone(d: int, r1: int, r2: int, s: int)
    requires
        d >= 0,
        0 <= r1 <= r2,
        s > 0,
    ensures
        (d * r1) / s <= (d * r2) / s,
        (d * r1 + s - 1) / s <= (d * r2 + s - 1) / s,
{
    lemma_mul_inequality(r1, r2, d);
    lemma_mul_is_commutative(r1, d);
    lemma_mul_is_commutative(r2, d);
    lemma_div_is_ordered(d * r1, d * r2, s);
    lemma_div_is_ordered(d * r1 + s - 1, d * r2 + s - 1, s);
}

/// Rounding the interpolation between `fa..fb` down never exceeds rounding
/// the interpolation between the pointwise larger `ca..cb` up.
pub proof fn lemma_down_le_up(fa: int, fb: int, ca: int, cb: int, r: int, s: int)
    requires
        0 <= fa <= fb,
        0 <= ca <= cb,
        fa <= ca,
        fb <= cb,
        0 <= r < s,
    ensures
        fa + ((fb - fa) * r) / s <= ca + ((cb - ca) * r + s - 1) / s,
{
    let a = (fb - fa) * r + fa * s;
    let b = (cb - ca) * r + ca * s;
    assert(a <= b) by (nonlinear_arith)
        requires
            fa <= ca,
            fb <= cb,
            0 <= r < s,
            a == (fb - fa) * r + fa * s,
            b == (cb - ca) * r + ca * s,
    ;
    lemma_hoist_over_denominator((fb - fa) * r, fa, s as nat);
    lemma_hoist_over_denominator((cb - ca) * r + s - 1, ca, s as nat);
    lemma_div_is_ordered(a, b + s - 1, s);
}

/// Position `x` of `[0, s)` split into `n` equal intervals falls in interval
/// `x * n / s`, which is below `n`.
pub proof fn lemma_interval_index(x: int, n: int, s: int)
    requires
        0 <= x < s,
        n >= 1,
    ensures
        0 <= (x * n) / s < n,
        0 <= (x * n) % s < s,
        x * n == ((x * n) / s) * s + (x * n) % s,
{
    assert(0 <= x * n < s * n) by (nonlinear_arith)
        requires
            0 <= x < s,
            n >= 1,
    ;
    lemma_div_pos_is_pos(x * n, s);
    lemma_multiply_divide_lt(x * n, s, n);
    lemma_fundamental_div_mod(x * n, s);
    lemma_mul_is_commutative(s, (x * n) / s);
}

/// Of two positions, the later one lies in the same or a later interval, and
/// within the same interval at the same or a later offset.
pub proof fn lemma_interval_order(x1: int, x2: int, n: int, s: int)
    requires
        0 <= x1 <= x2 < s,
        n >= 1,
    ensures
        (x1 * n) / s <= (x2 * n) / s,
        (x1 * n) / s == (x2 * n) / s ==> (x1 * n) % s <= (x2 * n) % s,
{
    lemma_mul_inequality(x1, x2, n);
    lemma_div_is_ordered(x1 * n, x2 * n, s);
    lemma_interval_index(x1, n, s);
    lemma_interval_index(x2, n, s);
}

/// Dividing `i * s + r` by `n` with `r <= s` and `i < n` stays within `[0, s]`.
pub proof fn lemma_position_bound(i: int, r: int, s: int, n: int)
    requires
        0 <= i < n,
        0 <= r <= s,
        s > 0,
    ensures
        0 <= (i * s + r) / n <= s,
{
    assert(0 <= i * s + r <= n * s) by (nonlinear_arith)
        requires
            0 <= i < n,
            0 <= r <= s,
            s > 0,
    ;
    lemma_div_pos_is_pos(i * s + r, n);
    lemma_multiply_divide_le(i * s + r, n, s);
}

/// `q * s / d` with `q <= d * r / s` rounded down is at most `r`.
pub proof fn lemma_inverse_not_past(d: int, r: int, s: int)
    requires
        d > 0,
        0 <= r < s,
    ensures
        (((d * r) / s) * s) / d <= r,
{
    lemma_fundamental_div_mod(d * r, s);
    let q = (d * r) / s;
    assert(0 <= d * r) by (nonlinear_arith)
        requires
            d > 0,
            r >= 0,
    ;
    assert(q * s <= d * r) by {
        lemma_mul_is_commutative(s, q);
        assert((d * r) % s >= 0);
    }
    lemma_mul_is_commutative(d, r);
    lemma_multiply_divide_le(q * s, d, r);
}

/// `(d * x) / d == x`, with `d` on the right of the product.
pub proof fn lemma_cancel(x: int, d: int)
    requires
        d > 0,
    ensures
        (x * d) / d == x,
{
    lemma_mul_is_commutative(x, d);
    lemma_div_multiples_vanish(x, d);
}

} // verus!
