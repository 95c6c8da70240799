//! Travel time along a speed profile: the trapezoidal rule applied to the
//! inverse of speed over distance.

use crate::model::SpeedSample;
use vstd::arithmetic::div_mod::{lemma_div_is_ordered, lemma_div_multiples_vanish, lemma_div_pos_is_pos};
use vstd::prelude::*;

verus! {

/// Slowest speed the integration divides by, in millimetres per second.
pub const MIN_SPEED_MM_PER_S: i32 = 100;

/// Longest stretch that can be integrated, in millimetres.
pub const MAX_SPAN_MM: i64 = 0x100_0000_0000;

/// A point of the curve being integrated.
#[derive(Clone, Copy, Debug, PartialEq, Eq, Structural)]
pub struct ProfilePoint {
    /// Distance along the lap, in millimetres.
    pub x_mm: i64,
    /// Speed at that distance, in millimetres per second.
    pub v_mm_per_s: i32,
}

/// A speed raised to the slowest one that is integrated.
pub open spec fn floored_speed(v_mm_per_s: int) -> int {
    if v_mm_per_s < MIN_SPEED_MM_PER_S {
        MIN_SPEED_MM_PER_S as int
    } else {
        v_mm_per_s
    }
}

/// Milliseconds taken from `a` to `b` by the trapezoidal rule on `1 / v`:
/// `(x1 - x0) * 1000 * (1/v0 + 1/v1) / 2`, rounded down. A pair that does not
/// advance takes no time.
pub open spec fn segment_time(a: ProfilePoint, b: ProfilePoint) -> int {
    if b.x_mm > a.x_mm {
        let v0 = floored_speed(a.v_mm_per_s as int);
        let v1 = floored_speed(b.v_mm_per_s as int);
        ((b.x_mm - a.x_mm) * 500 * (v0 + v1)) / (v0 * v1)
    } else {
        0
    }
}

/// Milliseconds taken along `pts`: the sum of the times of its adjacent pairs.
pub open spec fn travel_time(pts: Seq<ProfilePoint>) -> int
    decreases pts.len(),
{
    if pts.len() < 2 {
        0
    } else {
        travel_time(pts.drop_last()) + segment_time(pts[pts.len() - 2], pts[pts.len() - 1])
    }
}

/// Each point lies strictly beyond the one before it.
pub open spec fn strictly_increasing(pts: Seq<ProfilePoint>) -> bool {
    forall|i: int, j: int| 0 <= i < j < pts.len() ==> pts[i].x_mm < pts[j].x_mm
}

/// A segment never takes longer than it would at the slowest integrated speed.
pub proof fn lemma_segment_time_bounds(a: ProfilePoint, b: ProfilePoint)
    ensures
        0 <= segment_time(a, b),
        b.x_mm > a.x_mm ==> segment_time(a, b) <= 10 * (b.x_mm - a.x_mm),
        b.x_mm <= a.x_mm ==> segment_time(a, b) == 0,
{
    if b.x_mm > a.x_mm {
        let dx = b.x_mm - a.x_mm;
        let v0 = floored_speed(a.v_mm_per_s as int);
        let v1 = floored_speed(b.v_mm_per_s as int);
        let n = dx * 500 * (v0 + v1);
        let d = v0 * v1;
        assert(d > 0) by (nonlinear_arith)
            requires
                d == v0 * v1,
                v0 >= 100,
                v1 >= 100,
        ;
        assert(0 <= n) by (nonlinear_arith)
            requires
                n == dx * 500 * (v0 + v1),
                dx > 0,
                v0 >= 100,
                v1 >= 100,
        ;
        assert(n <= d * (10 * dx)) by (nonlinear_arith)
            requires
                n == dx * 500 * (v0 + v1),
                d == v0 * v1,
                dx > 0,
                v0 >= 100,
                v1 >= 100,
        ;
        lemma_div_pos_is_pos(n, d);
        lemma_div_is_ordered(n, d * (10 * dx), d);
        lemma_div_multiples_vanish(10 * dx, d);
    }
}

/// The time of one segment.
fn segment_time_ms(a: ProfilePoint, b: ProfilePoint) -> (t: i64)
    requires
        b.x_mm - a.x_mm <= MAX_SPAN_MM,
    ensures
        t == segment_time(a, b),
{
    proof {
        lemma_segment_time_bounds(a, b);
    }
    if b.x_mm > a.x_mm {
        let dx: i128 = b.x_mm as i128 - a.x_mm as i128;
        let v0: i128 = if a.v_mm_per_s < MIN_SPEED_MM_PER_S {
            MIN_SPEED_MM_PER_S as i128
        } else {
            a.v_mm_per_s as i128
        };
        let v1: i128 = if b.v_mm_per_s < MIN_SPEED_MM_PER_S {
            MIN_SPEED_MM_PER_S as i128
        } else {
            b.v_mm_per_s as i128
        };
        assert(0 < v0 * v1 <= 0x4000_0000_0000_0000) by (nonlinear_arith)
            requires
                100 <= v0 <= 0x8000_0000,
                100 <= v1 <= 0x8000_0000,
        ;
        assert(0 <= dx * 500 * (v0 + v1) <= 0x100_0000_0000 * 500 * 0x1_0000_0000)
            by (nonlinear_arith)
            requires
                0 < dx <= 0x100_0000_0000,
                100 <= v0 <= 0x8000_0000,
                100 <= v1 <= 0x8000_0000,
        ;
        let t: i128 = (dx * 500 * (v0 + v1)) / (v0 * v1);
        t as i64
    } else {
        0
    }
}

/// The time along a whole curve.
pub fn travel_time_ms(pts: &Vec<ProfilePoint>) -> (t: i64)
    requires
        strictly_increasing(pts@),
        pts@.len() > 0 ==> pts@.last().x_mm - pts@.first().x_mm <= MAX_SPAN_MM,
    ensures
        t == travel_time(pts@),
        0 <= t,
        pts@.len() > 0 ==> t <= 10 * (pts@.last().x_mm - pts@.first().x_mm),
{
    let mut area: i64 = 0;
    if pts.len() < 2 {
        return area;
    }
    let mut i: usize = 1;
    assert(pts@.subrange(0, 1).len() == 1);
    while i < pts.len()
        invariant
            1 <= i <= pts.len(),
            strictly_increasing(pts@),
            pts@.last().x_mm - pts@.first().x_mm <= MAX_SPAN_MM,
            area == travel_time(pts@.subrange(0, i as int)),
            0 <= area <= 10 * (pts@[i - 1].x_mm - pts@[0].x_mm),
        decreases pts.len() - i,
    {
        let a = pts[i - 1];
        let b = pts[i];
        proof {
            let upto = pts@.subrange(0, i + 1);
            assert(upto.drop_last() =~= pts@.subrange(0, i as int));
            assert(upto[upto.len() - 2] == a);
            assert(upto[upto.len() - 1] == b);
            lemma_segment_time_bounds(a, b);
            assert(pts@[0].x_mm <= a.x_mm);
            assert(b.x_mm <= pts@.last().x_mm);
        }
        let step = segment_time_ms(a, b);
        area = area + step;
        i = i + 1;
    }
    proof {
        assert(pts@.subrange(0, pts@.len() as int) =~= pts@);
    }
    area
}

/// The point of the curve that a sample gives.
pub open spec fn point_of(s: SpeedSample) -> ProfilePoint {
    ProfilePoint { x_mm: s.x_mm as i64, v_mm_per_s: s.v_mm_per_s }
}

/// The samples of `profile` that lie within `[start, end]`, in the order given.
pub open spec fn points_in_span(profile: Seq<SpeedSample>, start: int, end: int) -> Seq<
    ProfilePoint,
>
    decreases profile.len(),
{
    if profile.len() == 0 {
        Seq::empty()
    } else {
        let earlier = points_in_span(profile.drop_last(), start, end);
        let s = profile.last();
        if start <= s.x_mm <= end {
            earlier.push(point_of(s))
        } else {
            earlier
        }
    }
}

/// `pts` with a point at `start` put in front if its first point lies beyond
/// `start`, and a point at `end` put behind if its last point lies before
/// `end`; both take the speed `fallback_v`.
pub open spec fn with_guards(
    pts: Seq<ProfilePoint>,
    start: i64,
    end: i64,
    fallback_v: i32,
) -> Seq<ProfilePoint>
    recommends
        pts.len() > 0,
{
    let front = if pts.first().x_mm > start {
        pts.insert(0, ProfilePoint { x_mm: start, v_mm_per_s: fallback_v })
    } else {
        pts
    };
    if pts.last().x_mm < end {
        front.push(ProfilePoint { x_mm: end, v_mm_per_s: fallback_v })
    } else {
        front
    }
}

/// The index just past the last point of `pts` that lies before `x`. Where
/// `pts` is increasing, that is the number of its points before `x`.
pub open spec fn slot(pts: Seq<ProfilePoint>, x: int) -> int
    decreases pts.len(),
{
    if pts.len() == 0 {
        0
    } else if pts.last().x_mm < x {
        pts.len() as int
    } else {
        slot(pts.drop_last(), x)
    }
}

/// `acc` with `p` put at its slot, unless a point already stands at that
/// distance: the earlier point then stays and `p` is dropped.
pub open spec fn place(acc: Seq<ProfilePoint>, p: ProfilePoint) -> Seq<ProfilePoint> {
    let k = slot(acc, p.x_mm as int);
    if k < acc.len() && acc[k].x_mm == p.x_mm {
        acc
    } else {
        acc.insert(k, p)
    }
}

/// The points of `pts` by increasing distance, one for each distance: the one
/// that comes first in `pts`.
pub open spec fn ordered_distinct(pts: Seq<ProfilePoint>) -> Seq<ProfilePoint>
    decreases pts.len(),
{
    if pts.len() == 0 {
        Seq::empty()
    } else {
        place(ordered_distinct(pts.drop_last()), pts.last())
    }
}

/// Every point lies within `[lo, hi]`.
pub open spec fn all_within(pts: Seq<ProfilePoint>, lo: int, hi: int) -> bool {
    forall|i: int| 0 <= i < pts.len() ==> lo <= #[trigger] pts[i].x_mm <= hi
}

/// The slot is the one index with nothing before `x` at or after it and a
/// point before `x` just ahead of it.
pub proof fn lemma_slot_is(pts: Seq<ProfilePoint>, x: int, k: int)
    requires
        0 <= k <= pts.len(),
        forall|j: int| k <= j < pts.len() ==> pts[j].x_mm >= x,
        k > 0 ==> pts[k - 1].x_mm < x,
    ensures
        slot(pts, x) == k,
    decreases pts.len(),
{
    if pts.len() > 0 && !(pts.last().x_mm < x) {
        lemma_slot_is(pts.drop_last(), x, k);
    }
}

/// Where the slot lies.
pub proof fn lemma_slot_bounds(pts: Seq<ProfilePoint>, x: int)
    ensures
        0 <= slot(pts, x) <= pts.len(),
        forall|j: int| slot(pts, x) <= j < pts.len() ==> pts[j].x_mm >= x,
        slot(pts, x) > 0 ==> pts[slot(pts, x) - 1].x_mm < x,
    decreases pts.len(),
{
    if pts.len() > 0 && !(pts.last().x_mm < x) {
        let head = pts.drop_last();
        lemma_slot_bounds(head, x);
        assert forall|j: int| slot(pts, x) <= j < pts.len() implies pts[j].x_mm >= x by {
            if j < head.len() {
                assert(pts[j] == head[j]);
            }
        }
        if slot(pts, x) > 0 {
            assert(pts[slot(pts, x) - 1] == head[slot(head, x) - 1]);
        }
    }
}

/// Placing a point keeps an increasing curve increasing and within bounds
/// that hold the point.
pub proof fn lemma_place_keeps_order(acc: Seq<ProfilePoint>, p: ProfilePoint, lo: int, hi: int)
    requires
        strictly_increasing(acc),
        all_within(acc, lo, hi),
        lo <= p.x_mm <= hi,
    ensures
        strictly_increasing(place(acc, p)),
        all_within(place(acc, p), lo, hi),
        place(acc, p).len() > 0,
{
    let x = p.x_mm as int;
    let k = slot(acc, x);
    lemma_slot_bounds(acc, x);
    let r = place(acc, p);
    if !(k < acc.len() && acc[k].x_mm == p.x_mm) {
        assert forall|i: int, j: int| 0 <= i < j < r.len() implies r[i].x_mm < r[j].x_mm by {
            if k > 0 {
                assert(acc[k - 1].x_mm < x);
            }
            if i < k && j > k {
                assert(r[i] == acc[i]);
                assert(r[j] == acc[j - 1]);
            }
        }
        assert forall|i: int| 0 <= i < r.len() implies lo <= #[trigger] r[i].x_mm <= hi by {
            if i < k {
                assert(r[i] == acc[i]);
            } else if i > k {
                assert(r[i] == acc[i - 1]);
            }
        }
    }
}

/// Gathers the samples that lie within `[start_x, end_x]`.
fn collect_in_span(profile: &Vec<SpeedSample>, start_x: i64, end_x: i64) -> (pts: Vec<
    ProfilePoint,
>)
    ensures
        pts@ == points_in_span(profile@, start_x as int, end_x as int),
        all_within(pts@, start_x as int, end_x as int),
{
    let mut pts: Vec<ProfilePoint> = Vec::new();
    let mut i: usize = 0;
    while i < profile.len()
        invariant
            i <= profile.len(),
            pts@ == points_in_span(profile@.subrange(0, i as int), start_x as int, end_x as int),
            all_within(pts@, start_x as int, end_x as int),
        decreases profile.len() - i,
    {
        let s = profile[i];
        proof {
            assert(profile@.subrange(0, i + 1).drop_last() =~= profile@.subrange(0, i as int));
        }
        let x: i64 = s.x_mm as i64;
        if start_x <= x && x <= end_x {
            pts.push(ProfilePoint { x_mm: x, v_mm_per_s: s.v_mm_per_s });
        }
        i = i + 1;
    }
    proof {
        assert(profile@.subrange(0, profile@.len() as int) =~= profile@);
    }
    pts
}

/// Puts one point into an increasing curve.
fn place_point(acc: &mut Vec<ProfilePoint>, p: ProfilePoint)
    ensures
        final(acc)@ == place(old(acc)@, p),
{
    let mut k: usize = acc.len();
    while k > 0 && acc[k - 1].x_mm >= p.x_mm
        invariant
            k <= acc.len(),
            *acc == *old(acc),
            forall|j: int| k <= j < acc@.len() ==> acc@[j].x_mm >= p.x_mm,
        decreases k,
    {
        k = k - 1;
    }
    proof {
        lemma_slot_is(acc@, p.x_mm as int, k as int);
    }
    if k < acc.len() && acc[k].x_mm == p.x_mm {
    } else {
        acc.insert(k, p);
    }
}

/// Orders a curve by distance, keeping for each distance the point that came
/// first.
pub fn order_points(pts: &Vec<ProfilePoint>) -> (ordered: Vec<ProfilePoint>)
    ensures
        ordered@ == ordered_distinct(pts@),
{
    let mut ordered: Vec<ProfilePoint> = Vec::new();
    let mut i: usize = 0;
    while i < pts.len()
        invariant
            i <= pts.len(),
            ordered@ == ordered_distinct(pts@.subrange(0, i as int)),
        decreases pts.len() - i,
    {
        proof {
            assert(pts@.subrange(0, i + 1).drop_last() =~= pts@.subrange(0, i as int));
        }
        place_point(&mut ordered, pts[i]);
        i = i + 1;
    }
    proof {
        assert(pts@.subrange(0, pts@.len() as int) =~= pts@);
    }
    ordered
}

/// Ordering keeps a curve within the bounds that held of it, and gives an
/// increasing curve that is empty only if the given one was.
pub proof fn lemma_ordered_distinct_increasing(pts: Seq<ProfilePoint>, lo: int, hi: int)
    requires
        all_within(pts, lo, hi),
    ensures
        strictly_increasing(ordered_distinct(pts)),
        all_within(ordered_distinct(pts), lo, hi),
        pts.len() > 0 ==> ordered_distinct(pts).len() > 0,
    decreases pts.len(),
{
    if pts.len() > 0 {
        lemma_ordered_distinct_increasing(pts.drop_last(), lo, hi);
        lemma_place_keeps_order(ordered_distinct(pts.drop_last()), pts.last(), lo, hi);
    }
}

/// The travel time over `[start, end]` along `profile`: nothing where the
/// stretch is empty, no answer where no sample lies on it, and otherwise the
/// time along the ordered samples, guarded at both ends.
pub open spec fn integrated_time(
    start: i64,
    end: i64,
    profile: Option<Seq<SpeedSample>>,
    fallback_v: i32,
) -> Option<int> {
    match profile {
        None => None,
        Some(samples) => {
            if end <= start {
                Some(0)
            } else {
                let pts = points_in_span(samples, start as int, end as int);
                if pts.len() == 0 {
                    None
                } else {
                    Some(travel_time(ordered_distinct(with_guards(pts, start, end, fallback_v))))
                }
            }
        },
    }
}

/// The view of an optional profile.
pub open spec fn profile_view(profile: Option<&Vec<SpeedSample>>) -> Option<Seq<SpeedSample>> {
    match profile {
        None => None,
        Some(samples) => Some(samples@),
    }
}

/// Integrates the time taken from `start_x` to `end_x` along `profile`.
///
/// Gives no answer without a profile or where none of its samples lies on the
/// stretch; the caller then falls back on the instantaneous speed. The stretch
/// may be no longer than `MAX_SPAN_MM`, so that the time fits its type.
pub fn integrate_time_over_profile(
    start_x: i64,
    end_x: i64,
    profile: Option<&Vec<SpeedSample>>,
    fallback_v: i32,
) -> (t: Option<i64>)
    requires
        end_x - start_x <= MAX_SPAN_MM,
    ensures
        match t {
            Some(ms) => integrated_time(start_x, end_x, profile_view(profile), fallback_v) == Some(
                ms as int,
            ),
            None => integrated_time(start_x, end_x, profile_view(profile), fallback_v) is None,
        },
        t matches Some(ms) ==> 0 <= ms && (end_x <= start_x ==> ms == 0) && (end_x > start_x
            ==> ms <= 10 * (end_x - start_x)),
{
    let samples = match profile {
        None => {
            return None;
        },
        Some(samples) => samples,
    };
    if end_x <= start_x {
        return Some(0);
    }
    let mut pts = collect_in_span(samples, start_x, end_x);
    if pts.len() == 0 {
        return None;
    }
    let ghost gathered = pts@;
    let first_x = pts[0].x_mm;
    let last_x = pts[pts.len() - 1].x_mm;
    if first_x > start_x {
        pts.insert(0, ProfilePoint { x_mm: start_x, v_mm_per_s: fallback_v });
    }
    if last_x < end_x {
        pts.push(ProfilePoint { x_mm: end_x, v_mm_per_s: fallback_v });
    }
    proof {
        assert(pts@ == with_guards(gathered, start_x, end_x, fallback_v));
        assert forall|i: int| 0 <= i < pts@.len() implies start_x <= #[trigger] pts@[i].x_mm
            <= end_x by {
            let shift: int = if first_x > start_x { 1 } else { 0 };
            if shift <= i < shift + gathered.len() {
                assert(pts@[i] == gathered[i - shift]);
            }
        }
        lemma_ordered_distinct_increasing(pts@, start_x as int, end_x as int);
    }
    let ordered = order_points(&pts);
    Some(travel_time_ms(&ordered))
}

} // verus!
