//! Integer sine and cosine on a circle of `TURN` steps, and the projection
//! of a length onto a direction.
use vstd::prelude::*;
use vstd::arithmetic::div_mod::{lemma_add_mod_noop, lemma_mod_twice};
use crate::units::{UNIT, TURN};

verus! {

/// Half a turn, in angle steps.
pub const HALF_TURN: u32 = 32_768;

/// A quarter of a turn, in angle steps.
pub const QUARTER_TURN: u32 = 16_384;

/// The sine of an angle `a` in the first half turn, in `1 / UNIT`: the
/// rational approximation `16 p / (5 H^2 - 4 p)` with `p = a (H - a)` and
/// `H` half a turn, rounded down.
pub open spec fn arc(a: int) -> int {
    let p = a * (HALF_TURN - a);
    (16 * UNIT * p) / (5 * HALF_TURN * HALF_TURN - 4 * p)
}

/// The sine of `angle`, in `1 / UNIT`.
pub open spec fn sine(angle: int) -> int {
    let a = angle % (TURN as int);
    if a <= HALF_TURN {
        arc(a)
    } else {
        -arc(a - HALF_TURN)
    }
}

/// The cosine of `angle`, in `1 / UNIT`.
pub open spec fn cosine(angle: int) -> int {
    sine(angle + QUARTER_TURN)
}

/// `length` times `factor / UNIT`, rounded toward zero.
pub open spec fn projected(length: int, factor: int) -> int {
    let product = length * factor;
    if product >= 0 {
        product / (UNIT as int)
    } else {
        -((-product) / (UNIT as int))
    }
}

/// The arc stays between zero and one.
pub proof fn lemma_arc_bounds(a: int)
    requires
        0 <= a <= HALF_TURN,
    ensures
        0 <= arc(a) <= UNIT,
        0 <= a * (HALF_TURN - a) <= 268_435_456,
        5 * HALF_TURN * HALF_TURN - 4 * (a * (HALF_TURN - a)) >= 4_294_967_296,
{
    let h = HALF_TURN as int;
    let p = a * (h - a);
    assert(0 <= p && 4 * p <= h * h) by (nonlinear_arith)
        requires
            0 <= a <= h,
            p == a * (h - a),
    ;
    assert(h * h == 1_073_741_824) by (nonlinear_arith)
        requires
            h == 32_768,
    ;
    let d = 5 * h * h - 4 * p;
    assert(5 * h * h == 5 * (h * h)) by (nonlinear_arith);
    assert(5 * HALF_TURN * HALF_TURN == 5 * h * h);
    let n = 16 * UNIT * p;
    assert(0 <= n <= UNIT * d) by (nonlinear_arith)
        requires
            n == 16 * UNIT * p,
            d == 5 * h * h - 4 * p,
            0 <= p,
            4 * p <= h * h,
            UNIT == 1_000_000,
    ;
    assert(d >= 4_294_967_296);
    assert(0 <= n / d <= UNIT) by (nonlinear_arith)
        requires
            0 <= n <= UNIT * d,
            d > 0,
    ;
}

/// A projection is no longer than the length projected.
pub proof fn lemma_projected_bounds(length: int, factor: int, limit: int)
    requires
        -limit <= length <= limit,
        -UNIT <= factor <= UNIT,
    ensures
        -limit <= projected(length, factor) <= limit,
{
    let product = length * factor;
    let u = UNIT as int;
    assert(-limit * u <= product <= limit * u) by (nonlinear_arith)
        requires
            -limit <= length <= limit,
            -u <= factor <= u,
            product == length * factor,
            u > 0,
    ;
    if product >= 0 {
        assert(0 <= product / u <= limit) by (nonlinear_arith)
            requires
                0 <= product <= limit * u,
                u > 0,
        ;
    } else {
        assert(0 <= (-product) / u <= limit) by (nonlinear_arith)
            requires
                0 <= -product <= limit * u,
                u > 0,
        ;
    }
}

/// The sine of `angle`, in `1 / UNIT`.
pub fn sin(angle: u32) -> (r: i64)
    ensures
        r == sine(angle as int),
        -UNIT <= r <= UNIT,
{
    let a: u64 = (angle % TURN) as u64;
    let half: u64 = HALF_TURN as u64;
    let folded: u64 = if a <= half { a } else { a - half };
    proof {
        lemma_arc_bounds(folded as int);
    }
    let p: u64 = folded * (half - folded);
    let numerator: u64 = 16 * UNIT * p;
    let denominator: u64 = 5 * half * half - 4 * p;
    let magnitude: i64 = (numerator / denominator) as i64;
    if a <= half {
        magnitude
    } else {
        -magnitude
    }
}

/// The cosine of `angle`, in `1 / UNIT`.
pub fn cos(angle: u32) -> (r: i64)
    ensures
        r == cosine(angle as int),
        -UNIT <= r <= UNIT,
{
    let shifted: u32 = angle % TURN + QUARTER_TURN;
    proof {
        let t = TURN as int;
        lemma_add_mod_noop(angle as int, QUARTER_TURN as int, t);
        lemma_add_mod_noop((angle % TURN) as int, QUARTER_TURN as int, t);
        lemma_mod_twice(angle as int, t);
    }
    sin(shifted)
}

/// `length` times `factor / UNIT`, rounded toward zero.
pub fn project(length: i64, factor: i64) -> (r: i64)
    requires
        -0x1_0000_0000 <= length <= 0x1_0000_0000,
        -UNIT <= factor <= UNIT,
    ensures
        r == projected(length as int, factor as int),
        -0x1_0000_0000 <= r <= 0x1_0000_0000,
{
    let len_mag: u64 = if length < 0 { (-length) as u64 } else { length as u64 };
    let fac_mag: u64 = if factor < 0 { (-factor) as u64 } else { factor as u64 };
    let negative: bool = (length < 0) != (factor < 0);
    proof {
        lemma_projected_bounds(length as int, factor as int, 0x1_0000_0000);
        assert(len_mag * fac_mag <= 0x1_0000_0000 * 1_000_000) by (nonlinear_arith)
            requires
                0 <= len_mag <= 0x1_0000_0000,
                0 <= fac_mag <= 1_000_000,
        ;
        if negative {
            assert(len_mag * fac_mag == -(length * factor)) by (nonlinear_arith)
                requires
                    (length < 0 && len_mag == -length && fac_mag == factor) || (factor < 0
                        && fac_mag == -factor && len_mag == length),
            ;
        } else {
            assert(len_mag * fac_mag == length * factor) by (nonlinear_arith)
                requires
                    (len_mag == -length && fac_mag == -factor) || (len_mag == length && fac_mag
                        == factor),
            ;
        }
    }
    let quotient: u64 = (len_mag * fac_mag) / UNIT;
    if negative {
        -(quotient as i64)
    } else {
        quotient as i64
    }
}

} // verus!
