//! The colour a mockup gives a semi-transparent frame pixel over the
//! screenshot. The frame's alpha is taken as an IEEE single-precision
//! fraction of 255, the two weighted channels are rounded to single
//! precision one operation at a time, and the sum is truncated. This module
//! computes exactly that value with integers.
//!
//! Values are held in fixed point, in units of 2^-30. Every value that occurs
//! here for a frame alpha in 3..=252 is either zero or at least 2^23 units
//! (that is at least 2^-7), so a single-precision number of the same binade
//! has a unit in the last place of at least one unit.

use vstd::prelude::*;

verus! {

/// One in fixed point: 2^30 units.
pub const ONE: u64 = 0x4000_0000;

/// 2^24: single precision keeps 24 significant bits.
pub const SIGNIFICAND_LIMIT: u64 = 0x100_0000;

/// The unit in the last place of a single-precision number in the binade of
/// `n` units: the least power of two `unit * 2^k` (from `unit`) for which
/// `n / unit` has at most 24 bits.
pub open spec fn ulp_from(n: nat, unit: nat) -> nat
    decreases n - unit,
    when unit > 0
{
    if n / unit < SIGNIFICAND_LIMIT {
        unit
    } else {
        proof {
            assert(unit * 2 <= n) by (nonlinear_arith)
                requires n / unit >= SIGNIFICAND_LIMIT, unit > 0;
        }
        ulp_from(n, unit * 2)
    }
}

/// `p / q` rounded to a multiple of `unit`, to nearest, ties to an even multiple.
pub open spec fn round_ratio_to(p: nat, q: nat, unit: nat) -> nat {
    let quotient = p / (q * unit);
    let twice_rem = 2 * (p % (q * unit));
    let up = twice_rem > q * unit || (twice_rem == q * unit && quotient % 2 == 1);
    (if up { quotient + 1 } else { quotient }) * unit
}

/// `p / q` (in units) rounded to single precision.
pub open spec fn single_ratio(p: nat, q: nat) -> nat {
    round_ratio_to(p, q, ulp_from(p / q, 1))
}

/// `n` units rounded to single precision.
pub open spec fn single(n: nat) -> nat {
    single_ratio(n, 1)
}

/// The channel a semi-transparent frame pixel (channel `t`, alpha `a`) gets
/// over a screenshot channel `s`: `(t * A + s * (1 - A)) as u8` where
/// `A = a / 255` and each operation rounds to single precision.
pub open spec fn edge_channel(t: u8, s: u8, a: u8) -> nat {
    let alpha = single_ratio((a as nat) * (ONE as nat), 255);
    let rest = single((ONE - alpha) as nat);
    single(single((t as nat) * alpha) + single((s as nat) * rest)) / (ONE as nat)
}

/// `ulp_from` never goes below its start and never past `n` (for `n` of more than 24 bits).
proof fn lemma_ulp_bounds(n: nat, unit: nat)
    requires
        unit > 0,
    ensures
        ulp_from(n, unit) >= unit,
        ulp_from(n, unit) > 0,
        n / ulp_from(n, unit) < SIGNIFICAND_LIMIT,
        ulp_from(n, unit) == unit || ulp_from(n, unit) * 0x80_0000 <= n,
    decreases n - unit,
{
    if n / unit >= SIGNIFICAND_LIMIT {
        assert(n >= unit * SIGNIFICAND_LIMIT) by (nonlinear_arith)
            requires n / unit >= SIGNIFICAND_LIMIT, unit > 0;
        assert(unit * 2 <= n) by (nonlinear_arith)
            requires n >= unit * SIGNIFICAND_LIMIT, unit > 0;
        assert((unit * 2) * 0x80_0000 <= n) by (nonlinear_arith)
            requires n >= unit * SIGNIFICAND_LIMIT;
        lemma_ulp_bounds(n, unit * 2);
    }
}

/// The unit in the last place of the binade of `n`, found by doubling.
fn ulp_of(n: u64) -> (unit: u64)
    requires
        n < 0x100_0000_0000,
    ensures
        unit == ulp_from(n as nat, 1),
        unit > 0,
        unit == 1 || unit * 0x80_0000 <= n,
        n / unit < SIGNIFICAND_LIMIT,
{
    proof {
        lemma_ulp_bounds(n as nat, 1);
    }
    let mut unit: u64 = 1;
    while n / unit >= SIGNIFICAND_LIMIT
        invariant
            unit > 0,
            unit * 0x80_0000 <= n || unit == 1,
            ulp_from(n as nat, unit as nat) == ulp_from(n as nat, 1),
            n < 0x100_0000_0000,
        decreases n - unit,
    {
        proof {
            assert(n >= unit * SIGNIFICAND_LIMIT) by (nonlinear_arith)
                requires n / unit >= SIGNIFICAND_LIMIT, unit > 0;
            assert((unit * 2) * 0x80_0000 <= n) by (nonlinear_arith)
                requires n >= unit * SIGNIFICAND_LIMIT;
        }
        unit = unit * 2;
    }
    proof {
        lemma_ulp_bounds(n as nat, 1);
    }
    unit
}

/// `p / q` rounded to a multiple of `unit`, to nearest, ties to even.
fn round_ratio(p: u64, q: u64, unit: u64) -> (r: u64)
    requires
        0 < q <= 255,
        unit > 0,
        p < 0x100_0000_0000,
        unit == 1 || unit * 0x80_0000 <= p / q,
    ensures
        r == round_ratio_to(p as nat, q as nat, unit as nat),
        r <= p / q + unit,
{
    proof {
        assert(unit <= 0x100_0000_0000) by (nonlinear_arith)
            requires unit == 1 || unit * 0x80_0000 <= p / q, p < 0x100_0000_0000, q > 0;
        assert(q * unit <= 255 * 0x100_0000_0000) by (nonlinear_arith)
            requires unit <= 0x100_0000_0000, q <= 255;
    }
    let d = q * unit;
    proof {
        assert(d > 0) by (nonlinear_arith)
            requires d == q * unit, q > 0, unit > 0;
    }
    let quotient = p / d;
    let rem = p % d;
    let up = 2 * rem > d || (2 * rem == d && quotient % 2 == 1);
    let m = if up { quotient + 1 } else { quotient };
    proof {
        assert(quotient * unit <= p / q) by (nonlinear_arith)
            requires quotient == p / d, d == q * unit, q > 0, unit > 0;
        assert(m * unit <= p / q + unit) by (nonlinear_arith)
            requires quotient * unit <= p / q, m <= quotient + 1, unit > 0;
    }
    m * unit
}

/// `p / q` (in units) rounded to single precision.
fn single_of_ratio(p: u64, q: u64) -> (r: u64)
    requires
        0 < q <= 255,
        p < 0x100_0000_0000,
    ensures
        r == single_ratio(p as nat, q as nat),
        r <= p / q + (p / q) / 0x80_0000 + 1,
{
    let unit = ulp_of(p / q);
    proof {
        assert(unit <= (p / q) / 0x80_0000 || unit == 1) by (nonlinear_arith)
            requires unit == 1 || unit * 0x80_0000 <= p / q;
    }
    round_ratio(p, q, unit)
}

/// `n` units rounded to single precision.
fn single_of(n: u64) -> (r: u64)
    requires
        n < 0x100_0000_0000,
    ensures
        r == single(n as nat),
        r <= n + n / 0x80_0000 + 1,
{
    single_of_ratio(n, 1)
}

/// The channel of a semi-transparent frame pixel over the screenshot, as
/// `edge_channel` describes it.
pub fn edge_blend(t: u8, s: u8, a: u8) -> (r: u8)
    requires
        3 <= a <= 252,
    ensures
        r == edge_channel(t, s, a),
{
    let alpha = single_of_ratio(a as u64 * ONE, 255);
    proof {
        let p = (a as u64 * ONE) as nat;
        assert(p <= 252 * ONE);
        assert(p / 255 <= 252 * ONE / 255);
        assert(alpha <= ONE);
    }
    let rest = single_of(ONE - alpha);
    proof {
        assert(t as u64 * alpha <= 255 * ONE) by (nonlinear_arith)
            requires alpha <= ONE, t <= 255;
        assert(rest <= ONE + 200);
        assert(s as u64 * rest <= 255 * (ONE + 200)) by (nonlinear_arith)
            requires rest <= ONE + 200, s <= 255;
    }
    let weighted_t = single_of(t as u64 * alpha);
    let weighted_s = single_of(s as u64 * rest);
    let sum = single_of(weighted_t + weighted_s);
    proof {
        let x = t as u64 * alpha + s as u64 * rest;
        assert(x <= 255 * (alpha + rest)) by (nonlinear_arith)
            requires x == t as u64 * alpha + s as u64 * rest, t <= 255, s <= 255;
        assert(alpha + rest <= ONE + 200);
        assert(x <= 255 * (ONE + 200));
        assert(weighted_t + weighted_s <= x + x / 0x80_0000 + 2);
        assert(weighted_t + weighted_s <= 255 * (ONE + 200) + 40000);
        assert(sum < 256 * ONE);
        assert(sum / ONE < 256);
    }
    (sum / ONE) as u8
}

} // verus!
