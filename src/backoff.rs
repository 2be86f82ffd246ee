//! Randomised delays: a base delay scaled by a factor drawn uniformly from
//! `[0.75, 1.25]`, never below one unit.

use vstd::prelude::*;
use crate::entropy::random_u32;

verus! {

/// The largest raw draw; a draw `raw` stands for the factor
/// `0.75 + 0.5 * raw / RAW_MAX`.
pub const RAW_MAX: u64 = 4294967295;

/// `floor(base * (0.75 + 0.5 * raw / RAW_MAX))`, capped at `u64::MAX` and
/// raised to at least 1.
pub open spec fn jitter_value(base: u64, raw: u32) -> u64 {
    let v = (base as int * (3 * RAW_MAX + 2 * raw as int)) / (4 * RAW_MAX as int);
    if v < 1 {
        1
    } else if v > u64::MAX {
        u64::MAX
    } else {
        v as u64
    }
}

/// Scales `base` by the factor that the draw `raw` stands for.
pub fn jitter_from(base: u64, raw: u32) -> (r: u64)
    ensures
        r == jitter_value(base, raw),
{
    let num: u128 = 3 * (RAW_MAX as u128) + 2 * (raw as u128);
    proof {
        assert(base as int * num as int <= u64::MAX as int * (5 * RAW_MAX as int)) by (nonlinear_arith)
            requires
                base <= u64::MAX,
                num <= 5 * RAW_MAX,
        ;
    }
    let prod: u128 = (base as u128) * num;
    let v: u128 = prod / (4 * (RAW_MAX as u128));
    if v < 1 {
        1
    } else if v > (u64::MAX as u128) {
        u64::MAX
    } else {
        v as u64
    }
}

/// Draws a random factor and scales `base` by it. Whatever the draw, the
/// result is 1 or lies between `floor(0.75 * base)` and `floor(1.25 * base)`.
pub fn apply_jitter(base: u64) -> (r: u64)
    ensures
        exists|raw: u32| r == jitter_value(base, raw),
        r >= 1,
        r == 1 || (3 * base <= 4 * r + 3 && 4 * r <= 5 * base),
{
    let raw = random_u32();
    let r = jitter_from(base, raw);
    proof {
        lemma_jitter_range(base, raw);
    }
    r
}

/// Every jittered delay is 1 or lies in `[floor(0.75 * base), floor(1.25 * base)]`.
pub proof fn lemma_jitter_range(base: u64, raw: u32)
    ensures
        jitter_value(base, raw) >= 1,
        jitter_value(base, raw) == 1 || (3 * base <= 4 * jitter_value(base, raw) + 3
            && 4 * jitter_value(base, raw) <= 5 * base),
{
    let m = RAW_MAX as int;
    let x = base as int * (3 * m + 2 * raw as int);
    let v = x / (4 * m);
    assert(3 * m * base <= x <= 5 * m * base) by (nonlinear_arith)
        requires
            x == base as int * (3 * m + 2 * raw as int),
            0 <= raw <= m,
            base >= 0,
    ;
    assert(4 * m * v <= x < 4 * m * v + 4 * m) by (nonlinear_arith)
        requires
            v == x / (4 * m),
            m > 0,
    ;
    assert(4 * v <= 5 * base) by (nonlinear_arith)
        requires
            4 * m * v <= 5 * m * base,
            m > 0,
    ;
    assert(3 * base < 4 * v + 4) by (nonlinear_arith)
        requires
            3 * m * base < 4 * m * v + 4 * m,
            m > 0,
    ;
}

/// Every jittered delay is 1 or lies in `[ceil(0.75 * base), floor(1.25 *
/// base)]`, for every draw whose factor reaches `ceil(0.75 * base) / base`.
pub proof fn lemma_jitter_bounds(base: u64, raw: u32)
    requires
        4 * RAW_MAX * ((3 * base + 3) / 4) <= base as int * (3 * RAW_MAX + 2 * raw as int),
    ensures
        jitter_value(base, raw) == 1 || ((3 * base + 3) / 4 <= jitter_value(base, raw)
            && jitter_value(base, raw) <= (5 * base) / 4),
{
    lemma_jitter_range(base, raw);
    let m = RAW_MAX as int;
    let x = base as int * (3 * m + 2 * raw as int);
    let v = x / (4 * m);
    let c = (3 * base + 3) / 4;
    assert(c <= v) by (nonlinear_arith)
        requires
            4 * m * c <= x,
            v == x / (4 * m),
            m > 0,
            c >= 0,
    ;
}

} // verus!
