//! Conversion between the units that speeds are reported and integrated in.

use vstd::arithmetic::div_mod::{lemma_div_is_ordered, lemma_div_multiples_vanish, lemma_div_pos_is_pos};
use vstd::prelude::*;

verus! {

/// Milliseconds needed for `distance_mm` at the steady speed `v_mm_per_s`,
/// rounded down.
pub open spec fn steady_time(distance_mm: int, v_mm_per_s: int) -> int {
    distance_mm * 1000 / v_mm_per_s
}

/// At a tenth of a metre per second or more, a steady time is never negative
/// and at most ten milliseconds for each millimetre.
pub proof fn lemma_steady_time_bounds(distance_mm: int, v_mm_per_s: int)
    requires
        0 <= distance_mm,
        100 <= v_mm_per_s,
    ensures
        0 <= steady_time(distance_mm, v_mm_per_s) <= 10 * distance_mm,
        distance_mm == 0 ==> steady_time(distance_mm, v_mm_per_s) == 0,
{
    let n = distance_mm * 1000;
    let d = v_mm_per_s;
    assert(n <= d * (10 * distance_mm)) by (nonlinear_arith)
        requires
            n == distance_mm * 1000,
            0 <= distance_mm,
            100 <= d,
    ;
    lemma_div_pos_is_pos(n, d);
    lemma_div_is_ordered(n, d * (10 * distance_mm), d);
    lemma_div_multiples_vanish(10 * distance_mm, d);
}

/// A speed in metres per hour as millimetres per second: divided by 3.6 and
/// rounded towards zero.
pub open spec fn mm_per_s_of(speed_m_per_h: int) -> int {
    if speed_m_per_h >= 0 {
        speed_m_per_h * 5 / 18
    } else {
        -((-speed_m_per_h) * 5 / 18)
    }
}

/// Converts a speed from metres per hour to millimetres per second.
pub fn speed_mm_per_s(speed_m_per_h: i32) -> (v: i32)
    ensures
        v == mm_per_s_of(speed_m_per_h as int),
{
    let wide: i64 = speed_m_per_h as i64;
    if wide >= 0 {
        (wide * 5 / 18) as i32
    } else {
        (-((-wide) * 5 / 18)) as i32
    }
}

} // verus!
