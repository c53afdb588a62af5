use vstd::prelude::*;
use vstd::arithmetic::div_mod::{
    lemma_div_is_ordered, lemma_div_multiples_vanish, lemma_div_multiples_vanish_quotient,
};

use crate::decimal::{lemma_pow10_add, lemma_pow10_positive, pow10, pow10_u64};
use crate::model::Coordinate;

verus! {

/// Decimals of a raw coordinate: points are held in units of `10^-7` degrees.
pub const POINT_DECIMALS: u32 = 7;

/// Decimals of a quantized coordinate: keys are held in units of `10^-5` degrees.
pub const KEY_DECIMALS: u32 = 5;

/// The fixed-point value `value / 10^decimals` rounded to a multiple of
/// `10^-5`, halves away from zero, in units of `10^-5`.
pub open spec fn spec_quantize(value: int, decimals: nat) -> int {
    if decimals <= 5 {
        value * pow10((5 - decimals) as nat)
    } else {
        let d = pow10((decimals - 5) as nat);
        if value >= 0 {
            (2 * value + d) / (2 * d)
        } else {
            -((2 * (-value) + d) / (2 * d))
        }
    }
}

/// The heatmap key of a raw coordinate.
pub open spec fn spec_key_of(c: Coordinate) -> (int, int) {
    (
        spec_quantize(c.latitude as int, POINT_DECIMALS as nat),
        spec_quantize(c.longitude as int, POINT_DECIMALS as nat),
    )
}

proof fn lemma_rounded_at_most(a: int, d: int)
    requires
        a >= 0,
        d >= 2,
    ensures
        0 <= (2 * a + d) / (2 * d) <= a,
{
    if a == 0 {
        assert(d / (2 * d) == 0) by (nonlinear_arith)
            requires
                d >= 2,
        ;
    } else {
        assert(2 * a + d <= (2 * d) * a) by (nonlinear_arith)
            requires
                a >= 1,
                d >= 2,
        ;
        lemma_div_is_ordered(2 * a + d, (2 * d) * a, 2 * d);
        lemma_div_multiples_vanish(a, 2 * d);
        lemma_div_is_ordered(0, 2 * a + d, 2 * d);
    }
}

/// Rounds the fixed-point value `value / 10^decimals` to five decimals.
pub fn quantize(value: i64, decimals: u32) -> (r: i64)
    requires
        decimals <= 18,
        decimals <= 5 ==> i64::MIN <= value * pow10((5 - decimals) as nat) <= i64::MAX,
    ensures
        r == spec_quantize(value as int, decimals as nat),
{
    if decimals <= KEY_DECIMALS {
        let m = pow10_u64(KEY_DECIMALS - decimals);
        proof {
            lemma_pow10_positive((5 - decimals) as nat);
        }
        let r = (value as i128) * (m as i128);
        r as i64
    } else {
        let d = pow10_u64(decimals - KEY_DECIMALS) as i128;
        proof {
            lemma_pow10_positive((decimals - 5) as nat);
            lemma_pow10_add(1, (decimals - 6) as nat);
            assert(pow10(1) == 10) by {
                reveal_with_fuel(pow10, 2);
            }
            crate::decimal::lemma_pow10_monotone((decimals - 5) as nat, 13);
            assert(pow10(13) == 10000000000000int) by {
                reveal_with_fuel(pow10, 14);
            }
            crate::decimal::lemma_pow10_monotone(0, (decimals - 6) as nat);
            assert(pow10(0) == 1);
        }
        let a: i128 = if value < 0 {
            -(value as i128)
        } else {
            value as i128
        };
        proof {
            lemma_rounded_at_most(a as int, d as int);
        }
        let q = (2 * a + d) / (2 * d);
        if value < 0 {
            (-q) as i64
        } else {
            q as i64
        }
    }
}

/// The heatmap key of a raw coordinate: both axes quantized to five decimals.
pub fn key_of(c: &Coordinate) -> (r: (i64, i64))
    ensures
        r.0 == spec_key_of(*c).0,
        r.1 == spec_key_of(*c).1,
{
    (quantize(c.latitude, POINT_DECIMALS), quantize(c.longitude, POINT_DECIMALS))
}

proof fn lemma_round_scaled(v: int, d: int, c: int)
    requires
        v >= 0,
        d > 0,
        c > 0,
    ensures
        (2 * (v * c) + d * c) / (2 * (d * c)) == (2 * v + d) / (2 * d),
{
    assert(2 * (v * c) + d * c == c * (2 * v + d)) by (nonlinear_arith);
    assert(2 * (d * c) == c * (2 * d)) by (nonlinear_arith);
    assert(2 * v + d >= 0);
    lemma_div_multiples_vanish_quotient(c, 2 * v + d, 2 * d);
}

proof fn lemma_round_exact(q: int, d: int)
    requires
        q >= 0,
        d > 0,
    ensures
        (2 * (q * d) + d) / (2 * d) == q,
{
    assert(2 * (q * d) + d == d * (2 * q + 1)) by (nonlinear_arith);
    assert(2 * d == d * 2) by (nonlinear_arith);
    lemma_div_multiples_vanish_quotient(d, 2 * q + 1, 2);
    assert((2 * q + 1) / 2 == q);
}

/// Scaling a representation by `10^k` (more trailing zero decimals) keeps its key.
proof fn lemma_quantize_rescaled(v: int, d: nat, k: nat)
    ensures
        spec_quantize(v * pow10(k), d + k) == spec_quantize(v, d),
{
    let c = pow10(k);
    lemma_pow10_positive(k);
    if d + k <= 5 {
        lemma_pow10_add(k, (5 - d - k) as nat);
        assert(((5 - d - k) as nat + k) == (5 - d) as nat);
        assert(v * c * pow10((5 - d - k) as nat) == v * (c * pow10((5 - d - k) as nat)))
            by (nonlinear_arith);
    } else if d > 5 {
        let d1 = pow10((d - 5) as nat);
        lemma_pow10_positive((d - 5) as nat);
        lemma_pow10_add((d - 5) as nat, k);
        assert((d + k - 5) as nat == (d - 5) as nat + k);
        if v >= 0 {
            assert(v * c >= 0) by (nonlinear_arith)
                requires
                    v >= 0,
                    c > 0,
            ;
            lemma_round_scaled(v, d1, c);
        } else {
            assert(-(v * c) == (-v) * c) by (nonlinear_arith);
            assert(v * c < 0) by (nonlinear_arith)
                requires
                    v < 0,
                    c > 0,
            ;
            lemma_round_scaled(-v, d1, c);
        }
    } else {
        // d <= 5 < d + k: the coarser side is exact, the finer side rounds back to it
        let q = v * pow10((5 - d) as nat);
        let e = pow10((d + k - 5) as nat);
        lemma_pow10_positive((d + k - 5) as nat);
        lemma_pow10_positive((5 - d) as nat);
        lemma_pow10_add((5 - d) as nat, (d + k - 5) as nat);
        assert((5 - d) as nat + (d + k - 5) as nat == k);
        assert(v * c == q * e) by (nonlinear_arith)
            requires
                c == pow10((5 - d) as nat) * e,
                q == v * pow10((5 - d) as nat),
        ;
        if v >= 0 {
            assert(q >= 0) by (nonlinear_arith)
                requires
                    v >= 0,
                    q == v * pow10((5 - d) as nat),
                    pow10((5 - d) as nat) > 0,
            ;
            assert(v * c >= 0) by (nonlinear_arith)
                requires
                    v * c == q * e,
                    q >= 0,
                    e > 0,
            ;
            lemma_round_exact(q, e);
        } else {
            assert(q < 0) by (nonlinear_arith)
                requires
                    v < 0,
                    q == v * pow10((5 - d) as nat),
                    pow10((5 - d) as nat) > 0,
            ;
            assert(v * c < 0) by (nonlinear_arith)
                requires
                    v * c == q * e,
                    q < 0,
                    e > 0,
            ;
            assert(-(v * c) == (-q) * e) by (nonlinear_arith)
                requires
                    v * c == q * e,
            ;
            lemma_round_exact(-q, e);
        }
    }
}

/// Two fixed-point representations of the same number, `v1 / 10^d1` and
/// `v2 / 10^d2`, always give the same quantized key.
pub proof fn lemma_quantize_same_value(v1: int, d1: nat, v2: int, d2: nat)
    requires
        v1 * pow10(d2) == v2 * pow10(d1),
    ensures
        spec_quantize(v1, d1) == spec_quantize(v2, d2),
{
    if d1 <= d2 {
        let k = (d2 - d1) as nat;
        lemma_pow10_add(d1, k);
        lemma_pow10_positive(d1);
        let p = pow10(d1);
        let c = pow10(k);
        assert(v2 == v1 * c) by (nonlinear_arith)
            requires
                v1 * (p * c) == v2 * p,
                p > 0,
        ;
        lemma_quantize_rescaled(v1, d1, k);
    } else {
        let k = (d1 - d2) as nat;
        lemma_pow10_add(d2, k);
        lemma_pow10_positive(d2);
        let p = pow10(d2);
        let c = pow10(k);
        assert(v1 == v2 * c) by (nonlinear_arith)
            requires
                v1 * p == v2 * (p * c),
                p > 0,
        ;
        lemma_quantize_rescaled(v2, d2, k);
    }
}

} // verus!
