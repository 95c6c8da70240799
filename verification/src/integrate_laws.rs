//! What holds of the integration: curves that are already in order pass
//! through unchanged, and a steady speed gives distance over speed.

use crate::integrate::{
    all_within, floored_speed, integrated_time, lemma_ordered_distinct_increasing,
    lemma_place_keeps_order, lemma_slot_bounds,
    lemma_slot_is, ordered_distinct, place, point_of, points_in_span, segment_time, slot,
    strictly_increasing, travel_time, with_guards, ProfilePoint,
};
use crate::model::SpeedSample;
use crate::units::steady_time;
use vstd::arithmetic::div_mod::{
    lemma_div_is_ordered, lemma_div_multiples_vanish, lemma_div_multiples_vanish_fancy,
    lemma_div_multiples_vanish_quotient, lemma_fundamental_div_mod, lemma_mod_bound,
};
use vstd::prelude::*;

verus! {

/// The curve that a run of samples gives, point for sample.
pub open spec fn points_of(samples: Seq<SpeedSample>) -> Seq<ProfilePoint> {
    Seq::new(samples.len(), |i: int| point_of(samples[i]))
}

/// Rounding two quotients down loses less than one unit against rounding
/// their sum down.
pub proof fn lemma_quotient_of_sum(a: int, b: int, v: int)
    requires
        0 <= a,
        0 <= b,
        0 < v,
    ensures
        a / v + b / v <= (a + b) / v <= a / v + b / v + 1,
{
    let q = a / v + b / v;
    let r = a % v + b % v;
    lemma_fundamental_div_mod(a, v);
    lemma_fundamental_div_mod(b, v);
    lemma_mod_bound(a, v);
    lemma_mod_bound(b, v);
    assert(a + b == v * q + r) by (nonlinear_arith)
        requires
            a == v * (a / v) + (a % v),
            b == v * (b / v) + (b % v),
            q == a / v + b / v,
            r == a % v + b % v,
    ;
    lemma_div_is_ordered(v * q, a + b, v);
    lemma_div_multiples_vanish(q, v);
    assert(v * (q + 2) - 1 == v * (q + 1) + (v - 1)) by (nonlinear_arith);
    assert(v * (q + 2) == v * q + 2 * v) by (nonlinear_arith);
    lemma_div_is_ordered(a + b, v * (q + 1) + (v - 1), v);
    lemma_div_multiples_vanish_fancy(q + 1, v - 1, v);
}

/// Between two points of one speed a segment takes distance over speed.
pub proof fn lemma_segment_at_one_speed(a: ProfilePoint, b: ProfilePoint)
    requires
        a.x_mm < b.x_mm,
        floored_speed(a.v_mm_per_s as int) == floored_speed(b.v_mm_per_s as int),
    ensures
        segment_time(a, b) == steady_time(
            b.x_mm - a.x_mm,
            floored_speed(a.v_mm_per_s as int),
        ),
{
    let v = floored_speed(a.v_mm_per_s as int);
    let dx = b.x_mm - a.x_mm;
    assert(dx * 500 * (v + v) == v * (dx * 1000)) by (nonlinear_arith);
    assert(0 <= dx * 1000);
    lemma_div_multiples_vanish_quotient(v, dx * 1000, v);
}

/// Along a curve of one speed `v` the travel time is the length of the curve
/// over `v`, short by less than one millisecond for each point between its
/// ends.
pub proof fn lemma_travel_time_at_one_speed(pts: Seq<ProfilePoint>, v: int)
    requires
        pts.len() >= 2,
        strictly_increasing(pts),
        forall|i: int| 0 <= i < pts.len() ==> floored_speed(#[trigger] pts[i].v_mm_per_s as int) == v,
    ensures
        steady_time(pts.last().x_mm - pts.first().x_mm, v) - (pts.len() - 2) <= travel_time(pts),
        travel_time(pts) <= steady_time(pts.last().x_mm - pts.first().x_mm, v),
    decreases pts.len(),
{
    let n = pts.len() as int;
    let a = pts[n - 2];
    let b = pts[n - 1];
    let head = pts.drop_last();
    assert(floored_speed(a.v_mm_per_s as int) == v);
    assert(floored_speed(b.v_mm_per_s as int) == v);
    assert(v >= 100);
    lemma_segment_at_one_speed(a, b);
    assert(head.first() == pts.first());
    assert(head.last() == a);
    if n == 2 {
        assert(head.drop_last().len() == 0);
        assert(travel_time(head) == 0);
    } else {
        assert forall|i: int| 0 <= i < head.len() implies floored_speed(
            #[trigger] head[i].v_mm_per_s as int,
        ) == v by {
            assert(head[i] == pts[i]);
        }
        assert(strictly_increasing(head)) by {
            assert forall|i: int, j: int| 0 <= i < j < head.len() implies head[i].x_mm
                < head[j].x_mm by {
                assert(head[i] == pts[i]);
                assert(head[j] == pts[j]);
            }
        }
        lemma_travel_time_at_one_speed(head, v);
        let before = a.x_mm - pts.first().x_mm;
        let dx = b.x_mm - a.x_mm;
        assert(pts[0].x_mm < pts[n - 2].x_mm);
        lemma_quotient_of_sum(before * 1000, dx * 1000, v);
        assert(before * 1000 + dx * 1000 == (b.x_mm - pts.first().x_mm) * 1000);
    }
}

/// Ordering leaves a curve that is already increasing as it is.
pub proof fn lemma_ordered_distinct_of_increasing(pts: Seq<ProfilePoint>)
    requires
        strictly_increasing(pts),
    ensures
        ordered_distinct(pts) == pts,
    decreases pts.len(),
{
    if pts.len() > 0 {
        let head = pts.drop_last();
        let p = pts.last();
        assert(strictly_increasing(head)) by {
            assert forall|i: int, j: int| 0 <= i < j < head.len() implies head[i].x_mm
                < head[j].x_mm by {
                assert(head[i] == pts[i]);
                assert(head[j] == pts[j]);
            }
        }
        lemma_ordered_distinct_of_increasing(head);
        if head.len() > 0 {
            assert(head[head.len() - 1] == pts[head.len() - 1]);
        }
        lemma_slot_is(head, p.x_mm as int, head.len() as int);
        assert(head.insert(head.len() as int, p) =~= pts);
    } else {
        assert(ordered_distinct(pts) =~= pts);
    }
}

/// Every sample of a run that lies within the stretch is gathered, in order.
pub proof fn lemma_points_in_span_of_all(samples: Seq<SpeedSample>, start: int, end: int)
    requires
        forall|i: int| 0 <= i < samples.len() ==> start <= #[trigger] samples[i].x_mm <= end,
    ensures
        points_in_span(samples, start, end) == points_of(samples),
    decreases samples.len(),
{
    if samples.len() > 0 {
        let head = samples.drop_last();
        assert forall|i: int| 0 <= i < head.len() implies start <= #[trigger] head[i].x_mm
            <= end by {
            assert(head[i] == samples[i]);
        }
        lemma_points_in_span_of_all(head, start, end);
        assert(samples.last() == samples[samples.len() - 1]);
        assert(points_of(head).push(point_of(samples.last())) =~= points_of(samples));
    } else {
        assert(points_in_span(samples, start, end) =~= points_of(samples));
    }
}

/// A profile that runs in increasing order from exactly `start` to exactly
/// `end` is integrated as it stands.
pub proof fn lemma_integrated_time_of_ordered_profile(
    start: i64,
    end: i64,
    samples: Seq<SpeedSample>,
    fallback_v: i32,
)
    requires
        samples.len() >= 2,
        samples.first().x_mm == start,
        samples.last().x_mm == end,
        forall|i: int, j: int| 0 <= i < j < samples.len() ==> samples[i].x_mm < samples[j].x_mm,
    ensures
        integrated_time(start, end, Some(samples), fallback_v) == Some(
            travel_time(points_of(samples)),
        ),
{
    let pts = points_of(samples);
    assert(samples[0].x_mm < samples[samples.len() - 1].x_mm);
    assert forall|i: int| 0 <= i < samples.len() implies start <= #[trigger] samples[i].x_mm
        <= end by {
        if 0 < i {
            assert(samples[0].x_mm < samples[i].x_mm);
        }
        if i < samples.len() - 1 {
            assert(samples[i].x_mm < samples[samples.len() - 1].x_mm);
        }
    }
    lemma_points_in_span_of_all(samples, start as int, end as int);
    assert(pts.first().x_mm == start);
    assert(pts.last().x_mm == end);
    assert(with_guards(pts, start, end, fallback_v) == pts);
    assert(strictly_increasing(pts)) by {
        assert forall|i: int, j: int| 0 <= i < j < pts.len() implies pts[i].x_mm < pts[j].x_mm by {
            assert(samples[i].x_mm < samples[j].x_mm);
        }
    }
    lemma_ordered_distinct_of_increasing(pts);
}

/// For a profile of two or more samples that runs in increasing order from
/// `start` to `end`, all at one speed `v`, integration gives the length of
/// the stretch over `v`: exactly for two samples, and short by less than one
/// millisecond for each sample in between.
pub proof fn lemma_constant_speed_profile(
    start: i64,
    end: i64,
    samples: Seq<SpeedSample>,
    v: i32,
    fallback_v: i32,
)
    requires
        samples.len() >= 2,
        samples.first().x_mm == start,
        samples.last().x_mm == end,
        forall|i: int, j: int| 0 <= i < j < samples.len() ==> samples[i].x_mm < samples[j].x_mm,
        forall|i: int| 0 <= i < samples.len() ==> (#[trigger] samples[i]).v_mm_per_s == v,
    ensures
        integrated_time(start, end, Some(samples), fallback_v) is Some,
        integrated_time(start, end, Some(samples), fallback_v).unwrap() <= steady_time(
            end - start,
            floored_speed(v as int),
        ),
        integrated_time(start, end, Some(samples), fallback_v).unwrap() >= steady_time(
            end - start,
            floored_speed(v as int),
        ) - (samples.len() - 2),
{
    let pts = points_of(samples);
    lemma_integrated_time_of_ordered_profile(start, end, samples, fallback_v);
    assert(strictly_increasing(pts)) by {
        assert forall|i: int, j: int| 0 <= i < j < pts.len() implies pts[i].x_mm < pts[j].x_mm by {
            assert(samples[i].x_mm < samples[j].x_mm);
        }
    }
    assert forall|i: int| 0 <= i < pts.len() implies floored_speed(
        #[trigger] pts[i].v_mm_per_s as int,
    ) == floored_speed(v as int) by {
        assert(samples[i].v_mm_per_s == v);
    }
    lemma_travel_time_at_one_speed(pts, floored_speed(v as int));
}

/// Some point of `pts` stands at the distance `x`.
pub open spec fn has_distance(pts: Seq<ProfilePoint>, x: int) -> bool {
    exists|j: int| 0 <= j < pts.len() && #[trigger] pts[j].x_mm == x
}

/// No point of `pts` ahead of index `i` stands at the distance of `pts[i]`.
pub open spec fn first_at_its_distance(pts: Seq<ProfilePoint>, i: int) -> bool {
    forall|h: int| 0 <= h < i ==> #[trigger] pts[h].x_mm != pts[i].x_mm
}

/// `q` is a point of `pts`, and the first at its distance.
pub open spec fn kept_from(pts: Seq<ProfilePoint>, q: ProfilePoint) -> bool {
    exists|i: int| 0 <= i < pts.len() && #[trigger] pts[i] == q && first_at_its_distance(pts, i)
}

/// Being the first at a distance does not depend on what follows.
proof fn lemma_kept_from_longer(pts: Seq<ProfilePoint>, q: ProfilePoint)
    requires
        pts.len() > 0,
        kept_from(pts.drop_last(), q),
    ensures
        kept_from(pts, q),
{
    let head = pts.drop_last();
    let i = choose|i: int|
        0 <= i < head.len() && #[trigger] head[i] == q && first_at_its_distance(head, i);
    assert(pts[i] == q);
    assert forall|h: int| 0 <= h < i implies #[trigger] pts[h].x_mm != pts[i].x_mm by {
        assert(head[h].x_mm != head[i].x_mm);
    }
}

/// Ordering keeps every distance of the curve, and for each distance the
/// point that came first.
pub proof fn lemma_ordered_distinct_keeps_first(pts: Seq<ProfilePoint>)
    ensures
        strictly_increasing(ordered_distinct(pts)),
        forall|i: int|
            0 <= i < pts.len() ==> has_distance(ordered_distinct(pts), #[trigger] pts[i].x_mm as int),
        forall|j: int|
            0 <= j < ordered_distinct(pts).len() ==> kept_from(
                pts,
                #[trigger] ordered_distinct(pts)[j],
            ),
    decreases pts.len(),
{
    if pts.len() > 0 {
        let head = pts.drop_last();
        let p = pts.last();
        let x = p.x_mm as int;
        let r0 = ordered_distinct(head);
        let r = ordered_distinct(pts);
        let k = slot(r0, x);
        lemma_ordered_distinct_keeps_first(head);
        lemma_slot_bounds(r0, x);
        assert(all_within(r0, i64::MIN as int, i64::MAX as int));
        lemma_place_keeps_order(r0, p, i64::MIN as int, i64::MAX as int);
        let kept = k < r0.len() && r0[k].x_mm == p.x_mm;
        assert(r == place(r0, p));
        if kept {
            assert(r == r0);
        } else {
            assert(r == r0.insert(k, p));
            assert(r[k] == p);
        }
        assert forall|i: int| 0 <= i < pts.len() implies has_distance(
            r,
            #[trigger] pts[i].x_mm as int,
        ) by {
            if i < head.len() {
                assert(head[i] == pts[i]);
                assert(has_distance(r0, head[i].x_mm as int));
                let j0 = choose|j: int| 0 <= j < r0.len() && #[trigger] r0[j].x_mm == head[i].x_mm;
                if kept {
                    assert(r[j0].x_mm == pts[i].x_mm);
                } else if j0 < k {
                    assert(r[j0] == r0[j0]);
                    assert(r[j0].x_mm == pts[i].x_mm);
                } else {
                    assert(r[j0 + 1] == r0[j0]);
                    assert(r[j0 + 1].x_mm == pts[i].x_mm);
                }
            } else {
                assert(r[k].x_mm == pts[i].x_mm);
            }
        }
        assert forall|j: int| 0 <= j < r.len() implies kept_from(pts, #[trigger] r[j]) by {
            if kept || j != k {
                let j0 = if kept || j < k {
                    j
                } else {
                    j - 1
                };
                assert(r[j] == r0[j0]);
                assert(kept_from(head, r0[j0]));
                lemma_kept_from_longer(pts, r[j]);
            } else {
                let last = pts.len() - 1;
                assert(pts[last] == r[j]);
                assert forall|h: int| 0 <= h < last implies #[trigger] pts[h].x_mm
                    != pts[last].x_mm by {
                    assert(head[h] == pts[h]);
                    assert(has_distance(r0, head[h].x_mm as int));
                    let j0 = choose|j: int|
                        0 <= j < r0.len() && #[trigger] r0[j].x_mm == head[h].x_mm;
                    if j0 < k {
                        assert(r0[k - 1].x_mm < x);
                        assert(j0 < k - 1 ==> r0[j0].x_mm < r0[k - 1].x_mm);
                    } else if j0 > k {
                        assert(r0[k].x_mm < r0[j0].x_mm);
                        assert(r0[k].x_mm >= x);
                    } else {
                        assert(r0[k].x_mm >= x);
                    }
                }
                assert(first_at_its_distance(pts, last));
            }
        }
    } else {
        assert(strictly_increasing(ordered_distinct(pts)));
    }
}

/// Ordering never lengthens a curve.
pub proof fn lemma_ordered_distinct_len(pts: Seq<ProfilePoint>)
    ensures
        ordered_distinct(pts).len() <= pts.len(),
    decreases pts.len(),
{
    if pts.len() > 0 {
        lemma_ordered_distinct_len(pts.drop_last());
        lemma_slot_bounds(ordered_distinct(pts.drop_last()), pts.last().x_mm as int);
    }
}

/// The points gathered from a run of samples lie on the stretch, are no more
/// than the samples, and have a speed that every sample on the stretch has.
pub proof fn lemma_points_in_span(samples: Seq<SpeedSample>, start: int, end: int, v: int)
    requires
        forall|i: int|
            0 <= i < samples.len() && start <= (#[trigger] samples[i]).x_mm <= end
                ==> floored_speed(samples[i].v_mm_per_s as int) == v,
    ensures
        all_within(points_in_span(samples, start, end), start, end),
        points_in_span(samples, start, end).len() <= samples.len(),
        forall|j: int|
            0 <= j < points_in_span(samples, start, end).len() ==> floored_speed(
                (#[trigger] points_in_span(samples, start, end)[j]).v_mm_per_s as int,
            ) == v,
    decreases samples.len(),
{
    if samples.len() > 0 {
        let head = samples.drop_last();
        assert forall|i: int|
            0 <= i < head.len() && start <= (#[trigger] head[i]).x_mm <= end implies floored_speed(
            head[i].v_mm_per_s as int,
        ) == v by {
            assert(head[i] == samples[i]);
        }
        lemma_points_in_span(head, start, end, v);
        let s = samples[samples.len() - 1];
        assert(s == samples.last());
    }
}

/// Where every sample on the stretch, and the fallback, has the one speed
/// `v`, integration gives the length of the stretch over `v`, short by less
/// than one millisecond for each sample: however the samples are ordered,
/// wherever on the stretch they lie, and whatever lies off it.
pub proof fn lemma_steady_profile_time(
    start: i64,
    end: i64,
    samples: Seq<SpeedSample>,
    fallback_v: i32,
    v: int,
)
    requires
        start < end,
        floored_speed(fallback_v as int) == v,
        forall|i: int|
            0 <= i < samples.len() && start <= (#[trigger] samples[i]).x_mm <= end
                ==> floored_speed(samples[i].v_mm_per_s as int) == v,
    ensures
        integrated_time(start, end, Some(samples), fallback_v) matches Some(t) ==> steady_time(
            end - start,
            v,
        ) - samples.len() <= t <= steady_time(end - start, v),
{
    let pts = points_in_span(samples, start as int, end as int);
    lemma_points_in_span(samples, start as int, end as int, v);
    if pts.len() > 0 {
        let guard_front = ProfilePoint { x_mm: start, v_mm_per_s: fallback_v };
        let guard_back = ProfilePoint { x_mm: end, v_mm_per_s: fallback_v };
        let shift: int = if pts.first().x_mm > start {
            1
        } else {
            0
        };
        let g = with_guards(pts, start, end, fallback_v);
        assert(g.len() <= pts.len() + 2);
        assert(g[0].x_mm == start) by {
            assert(start <= pts[0].x_mm);
        }
        assert(g[g.len() - 1].x_mm == end) by {
            assert(pts[pts.len() - 1].x_mm <= end);
            if !(pts.last().x_mm < end) {
                assert(g[g.len() - 1] == pts[pts.len() - 1]);
            }
        }
        assert forall|i: int| 0 <= i < g.len() implies start <= (#[trigger] g[i]).x_mm <= end
            && floored_speed(g[i].v_mm_per_s as int) == v by {
            if shift <= i < shift + pts.len() {
                assert(g[i] == pts[i - shift]);
            }
        }
        let r = ordered_distinct(g);
        lemma_ordered_distinct_keeps_first(g);
        lemma_ordered_distinct_increasing(g, start as int, end as int);
        lemma_ordered_distinct_len(g);
        assert(has_distance(r, g[0].x_mm as int));
        assert(has_distance(r, g[g.len() - 1].x_mm as int));
        let at_start = choose|j: int| 0 <= j < r.len() && #[trigger] r[j].x_mm == start;
        let at_end = choose|j: int| 0 <= j < r.len() && #[trigger] r[j].x_mm == end;
        assert(at_start == 0) by {
            if at_start > 0 {
                assert(r[0].x_mm < r[at_start].x_mm);
            }
        }
        assert(at_end == r.len() - 1) by {
            if at_end < r.len() - 1 {
                assert(r[at_end].x_mm < r[r.len() - 1].x_mm);
            }
        }
        assert forall|j: int| 0 <= j < r.len() implies floored_speed(
            #[trigger] r[j].v_mm_per_s as int,
        ) == v by {
            assert(kept_from(g, r[j]));
            let i = choose|i: int|
                0 <= i < g.len() && #[trigger] g[i] == r[j] && first_at_its_distance(g, i);
            assert(floored_speed(g[i].v_mm_per_s as int) == v);
        }
        lemma_travel_time_at_one_speed(r, v);
    }
}

} // verus!
