//! A sliding window of recent speed samples, and the speed-over-distance
//! profiles that are cut from it.

use crate::model::SpeedSample;
use crate::units::{mm_per_s_of, speed_mm_per_s};
use std::collections::VecDeque;
use vstd::prelude::*;
use vstd::seq_lib::{to_multiset_build, to_multiset_insert};

verus! {

/// How far a profile reaches beyond both ends of the stretch asked for, in
/// millimetres.
pub const GUARD_BAND_MM: i64 = 50_000;

/// The samples of `window` whose distance lies within `[lo, hi]`, in the order
/// in which the window holds them.
pub open spec fn samples_within(window: Seq<SpeedSample>, lo: int, hi: int) -> Seq<SpeedSample>
    decreases window.len(),
{
    if window.len() == 0 {
        Seq::empty()
    } else {
        let earlier = samples_within(window.drop_last(), lo, hi);
        if lo <= window.last().x_mm <= hi {
            earlier.push(window.last())
        } else {
            earlier
        }
    }
}

/// The index just past the last sample of `acc` that lies at or before `x`.
pub open spec fn slot_after(acc: Seq<SpeedSample>, x: int) -> int
    decreases acc.len(),
{
    if acc.len() == 0 {
        0
    } else if acc.last().x_mm <= x {
        acc.len() as int
    } else {
        slot_after(acc.drop_last(), x)
    }
}

/// `samples` by distance; samples at one distance keep the order they had.
pub open spec fn sorted_by_distance(samples: Seq<SpeedSample>) -> Seq<SpeedSample>
    decreases samples.len(),
{
    if samples.len() == 0 {
        Seq::empty()
    } else {
        let earlier = sorted_by_distance(samples.drop_last());
        earlier.insert(slot_after(earlier, samples.last().x_mm as int), samples.last())
    }
}

/// No sample lies before the one ahead of it.
pub open spec fn ordered_by_distance(samples: Seq<SpeedSample>) -> bool {
    forall|i: int, j: int| 0 <= i < j < samples.len() ==> samples[i].x_mm <= samples[j].x_mm
}

/// Every sample lies within `[lo, hi]`.
pub open spec fn all_samples_within(samples: Seq<SpeedSample>, lo: int, hi: int) -> bool {
    forall|i: int| 0 <= i < samples.len() ==> lo <= #[trigger] samples[i].x_mm <= hi
}

/// The profile cut from `window` between `lo` and `hi`: none unless the
/// window holds two samples and two of them lie in between.
pub open spec fn profile_within(window: Seq<SpeedSample>, lo: int, hi: int) -> Option<
    Seq<SpeedSample>,
> {
    if window.len() < 2 || samples_within(window, lo, hi).len() < 2 {
        None
    } else {
        Some(sorted_by_distance(samples_within(window, lo, hi)))
    }
}

/// The profile for the stretch from `current` to `target`, which reaches a
/// guard band beyond both.
pub open spec fn profile_of(window: Seq<SpeedSample>, current: int, target: int) -> Option<
    Seq<SpeedSample>,
> {
    profile_within(window, current - GUARD_BAND_MM, target + GUARD_BAND_MM)
}

/// `window` after one more sample: the oldest sample leaves first if the
/// window has reached `window_size`.
pub open spec fn pushed(window: Seq<SpeedSample>, window_size: nat, s: SpeedSample) -> Seq<
    SpeedSample,
> {
    if window.len() >= window_size && window.len() > 0 {
        window.drop_first().push(s)
    } else {
        window.push(s)
    }
}

/// The window after every sample of `fed` has gone into an empty one.
pub open spec fn window_after(window_size: nat, fed: Seq<SpeedSample>) -> Seq<SpeedSample>
    decreases fed.len(),
{
    if fed.len() == 0 {
        Seq::empty()
    } else {
        pushed(window_after(window_size, fed.drop_last()), window_size, fed.last())
    }
}

/// The sample stored for a reading of distance and speed.
pub open spec fn sample_of(lap_distance_mm: i32, speed_m_per_h: i32) -> SpeedSample {
    SpeedSample {
        x_mm: lap_distance_mm,
        v_mm_per_s: mm_per_s_of(speed_m_per_h as int) as i32,
    }
}

/// What a calculator holds.
pub struct WindowView {
    /// The most samples the window is meant to keep.
    pub window_size: nat,
    /// How far ahead a lookahead profile reaches, in millimetres.
    pub lookahead_mm: int,
    /// The samples, oldest first.
    pub samples: Seq<SpeedSample>,
}

/// Keeps the most recent samples of one telemetry source and cuts profiles
/// from them.
pub struct SpeedProfileCalculator {
    window_size: usize,
    lookahead_mm: i32,
    window: VecDeque<SpeedSample>,
}

impl View for SpeedProfileCalculator {
    type V = WindowView;

    closed spec fn view(&self) -> WindowView {
        WindowView {
            window_size: self.window_size as nat,
            lookahead_mm: self.lookahead_mm as int,
            samples: self.window@,
        }
    }
}

impl SpeedProfileCalculator {
    /// The window holds no more than it is meant to keep.
    pub open spec fn within_capacity(&self) -> bool {
        self@.samples.len() <= self@.window_size
    }

    /// An empty window that keeps `window_size` samples.
    pub fn new(window_size: usize, lookahead_mm: i32) -> (calc: Self)
        ensures
            calc@.window_size == window_size,
            calc@.lookahead_mm == lookahead_mm,
            calc@.samples == Seq::<SpeedSample>::empty(),
            calc.within_capacity(),
    {
        SpeedProfileCalculator {
            window_size,
            lookahead_mm,
            window: VecDeque::new(),
        }
    }

    /// Takes in a reading of lap distance (millimetres) and speed (metres per
    /// hour). The oldest sample leaves first if the window is full.
    pub fn add_sample(&mut self, lap_distance_mm: i32, speed_m_per_h: i32)
        ensures
            final(self)@.window_size == old(self)@.window_size,
            final(self)@.lookahead_mm == old(self)@.lookahead_mm,
            final(self)@.samples == pushed(
                old(self)@.samples,
                old(self)@.window_size,
                sample_of(lap_distance_mm, speed_m_per_h),
            ),
            old(self).within_capacity() && old(self)@.window_size > 0
                ==> final(self).within_capacity(),
    {
        let sample = SpeedSample {
            x_mm: lap_distance_mm,
            v_mm_per_s: speed_mm_per_s(speed_m_per_h),
        };
        if self.window.len() >= self.window_size {
            self.window.pop_front();
        }
        self.window.push_back(sample);
    }

    /// The samples that lie within `[lo, hi]`, by distance; none unless there
    /// are two.
    fn cut(&self, lo: i128, hi: i128) -> (profile: Option<Vec<SpeedSample>>)
        ensures
            match profile {
                Some(samples) => profile_within(self@.samples, lo as int, hi as int) == Some(
                    samples@,
                ),
                None => profile_within(self@.samples, lo as int, hi as int) is None,
            },
    {
        if self.window.len() < 2 {
            return None;
        }
        let mut picked: Vec<SpeedSample> = Vec::new();
        let ghost mut chosen: Seq<SpeedSample> = Seq::empty();
        let mut i: usize = 0;
        while i < self.window.len()
            invariant
                i <= self.window@.len(),
                chosen == samples_within(self.window@.subrange(0, i as int), lo as int, hi as int),
                chosen.len() <= i,
                picked@ == sorted_by_distance(chosen),
                picked@.len() == chosen.len(),
            decreases self.window@.len() - i,
        {
            let s = self.window[i];
            proof {
                assert(self.window@.subrange(0, i + 1).drop_last() =~= self.window@.subrange(
                    0,
                    i as int,
                ));
            }
            if lo <= s.x_mm as i128 && s.x_mm as i128 <= hi {
                proof {
                    assert(chosen.push(s).drop_last() =~= chosen);
                    chosen = chosen.push(s);
                }
                insert_by_distance(&mut picked, s);
            }
            i = i + 1;
        }
        proof {
            assert(self.window@.subrange(0, self.window@.len() as int) =~= self.window@);
        }
        if picked.len() < 2 {
            None
        } else {
            Some(picked)
        }
    }

    /// The profile for the stretch from `current_distance_mm` to
    /// `target_distance_mm`: the samples that lie on it or within the guard
    /// band beyond either end, by distance. None unless there are two.
    pub fn get_profile(&self, current_distance_mm: i64, target_distance_mm: i64) -> (profile:
        Option<Vec<SpeedSample>>)
        ensures
            match profile {
                Some(samples) => profile_of(
                    self@.samples,
                    current_distance_mm as int,
                    target_distance_mm as int,
                ) == Some(samples@),
                None => profile_of(
                    self@.samples,
                    current_distance_mm as int,
                    target_distance_mm as int,
                ) is None,
            },
            profile matches Some(samples) ==> samples@.len() >= 2 && ordered_by_distance(samples@),
    {
        proof {
            lemma_profile_has_two(
                self@.samples,
                current_distance_mm as int,
                target_distance_mm as int,
            );
        }
        self.cut(
            current_distance_mm as i128 - GUARD_BAND_MM as i128,
            target_distance_mm as i128 + GUARD_BAND_MM as i128,
        )
    }

    /// The profile for the stretch that starts at `current_distance_mm` and
    /// is as long as the lookahead.
    pub fn get_lookahead_profile(&self, current_distance_mm: i64) -> (profile: Option<
        Vec<SpeedSample>,
    >)
        ensures
            match profile {
                Some(samples) => profile_of(
                    self@.samples,
                    current_distance_mm as int,
                    current_distance_mm + self@.lookahead_mm,
                ) == Some(samples@),
                None => profile_of(
                    self@.samples,
                    current_distance_mm as int,
                    current_distance_mm + self@.lookahead_mm,
                ) is None,
            },
            profile matches Some(samples) ==> samples@.len() >= 2 && ordered_by_distance(samples@),
    {
        proof {
            lemma_profile_has_two(
                self@.samples,
                current_distance_mm as int,
                current_distance_mm + self@.lookahead_mm,
            );
        }
        self.cut(
            current_distance_mm as i128 - GUARD_BAND_MM as i128,
            current_distance_mm as i128 + self.lookahead_mm as i128 + GUARD_BAND_MM as i128,
        )
    }

    /// Empties the window.
    pub fn reset(&mut self)
        ensures
            final(self)@.window_size == old(self)@.window_size,
            final(self)@.lookahead_mm == old(self)@.lookahead_mm,
            final(self)@.samples == Seq::<SpeedSample>::empty(),
            final(self).within_capacity(),
    {
        self.window.clear();
    }

    /// How many samples the window holds.
    pub fn window_len(&self) -> (n: usize)
        ensures
            n == self@.samples.len(),
    {
        self.window.len()
    }
}

/// The slot after `x` is the one index with nothing at or before `x` from it
/// on, and a sample at or before `x` just ahead of it.
pub proof fn lemma_slot_after_is(acc: Seq<SpeedSample>, x: int, k: int)
    requires
        0 <= k <= acc.len(),
        forall|j: int| k <= j < acc.len() ==> acc[j].x_mm > x,
        k > 0 ==> acc[k - 1].x_mm <= x,
    ensures
        slot_after(acc, x) == k,
    decreases acc.len(),
{
    if acc.len() > 0 && !(acc.last().x_mm <= x) {
        lemma_slot_after_is(acc.drop_last(), x, k);
    }
}

/// Puts a sample behind the last one that lies at or before it.
fn insert_by_distance(acc: &mut Vec<SpeedSample>, s: SpeedSample)
    ensures
        final(acc)@ == old(acc)@.insert(slot_after(old(acc)@, s.x_mm as int), s),
        final(acc)@.len() == old(acc)@.len() + 1,
{
    let mut k: usize = acc.len();
    while k > 0 && acc[k - 1].x_mm > s.x_mm
        invariant
            k <= acc.len(),
            *acc == *old(acc),
            forall|j: int| k <= j < acc@.len() ==> acc@[j].x_mm > s.x_mm,
        decreases k,
    {
        k = k - 1;
    }
    proof {
        lemma_slot_after_is(acc@, s.x_mm as int, k as int);
    }
    acc.insert(k, s);
}

/// Where the slot after `x` lies.
pub proof fn lemma_slot_after_bounds(acc: Seq<SpeedSample>, x: int)
    ensures
        0 <= slot_after(acc, x) <= acc.len(),
        forall|j: int| slot_after(acc, x) <= j < acc.len() ==> acc[j].x_mm > x,
        slot_after(acc, x) > 0 ==> acc[slot_after(acc, x) - 1].x_mm <= x,
    decreases acc.len(),
{
    if acc.len() > 0 && !(acc.last().x_mm <= x) {
        let head = acc.drop_last();
        lemma_slot_after_bounds(head, x);
        assert forall|j: int| slot_after(acc, x) <= j < acc.len() implies acc[j].x_mm > x by {
            if j < head.len() {
                assert(acc[j] == head[j]);
            }
        }
        if slot_after(acc, x) > 0 {
            assert(acc[slot_after(acc, x) - 1] == head[slot_after(head, x) - 1]);
        }
    }
}

/// Sorting by distance rearranges the samples and loses none: the result is
/// ordered, and holds each sample as often as the input does.
pub proof fn lemma_sorted_by_distance(samples: Seq<SpeedSample>)
    ensures
        ordered_by_distance(sorted_by_distance(samples)),
        sorted_by_distance(samples).len() == samples.len(),
        sorted_by_distance(samples).to_multiset() == samples.to_multiset(),
    decreases samples.len(),
{
    if samples.len() > 0 {
        let head = samples.drop_last();
        let s = samples.last();
        let earlier = sorted_by_distance(head);
        let k = slot_after(earlier, s.x_mm as int);
        let r = earlier.insert(k, s);
        lemma_sorted_by_distance(head);
        lemma_slot_after_bounds(earlier, s.x_mm as int);
        assert forall|i: int, j: int| 0 <= i < j < r.len() implies r[i].x_mm <= r[j].x_mm by {
            if k > 0 {
                assert(earlier[k - 1].x_mm <= s.x_mm);
            }
            if i < k {
                assert(r[i] == earlier[i]);
                assert(i < k - 1 ==> earlier[i].x_mm <= earlier[k - 1].x_mm);
            }
            if j > k {
                assert(r[j] == earlier[j - 1]);
            }
            if i > k {
                assert(r[i] == earlier[i - 1]);
            }
            if j < k {
                assert(r[j] == earlier[j]);
            }
        }
        to_multiset_insert(earlier, k, s);
        to_multiset_build(head, s);
        assert(head.push(s) =~= samples);
    } else {
        assert(sorted_by_distance(samples) =~= samples);
    }
}

/// Sorting by distance keeps samples within the bounds that held of them.
pub proof fn lemma_sorted_stays_within(samples: Seq<SpeedSample>, lo: int, hi: int)
    requires
        all_samples_within(samples, lo, hi),
    ensures
        all_samples_within(sorted_by_distance(samples), lo, hi),
    decreases samples.len(),
{
    if samples.len() > 0 {
        let head = samples.drop_last();
        let s = samples.last();
        let earlier = sorted_by_distance(head);
        let k = slot_after(earlier, s.x_mm as int);
        let r = earlier.insert(k, s);
        assert forall|i: int| 0 <= i < head.len() implies lo <= #[trigger] head[i].x_mm <= hi by {
            assert(head[i] == samples[i]);
        }
        lemma_sorted_stays_within(head, lo, hi);
        lemma_slot_after_bounds(earlier, s.x_mm as int);
        assert forall|i: int| 0 <= i < r.len() implies lo <= #[trigger] r[i].x_mm <= hi by {
            if i < k {
                assert(r[i] == earlier[i]);
            } else if i > k {
                assert(r[i] == earlier[i - 1]);
            }
        }
    }
}

/// The samples picked between two bounds lie between them, and are no more
/// than the window holds.
pub proof fn lemma_samples_within(window: Seq<SpeedSample>, lo: int, hi: int)
    ensures
        all_samples_within(samples_within(window, lo, hi), lo, hi),
        samples_within(window, lo, hi).len() <= window.len(),
    decreases window.len(),
{
    if window.len() > 0 {
        lemma_samples_within(window.drop_last(), lo, hi);
    }
}

/// A profile is never shorter than two samples: there is one exactly when the
/// window holds two samples and two of them lie on the stretch or in its guard
/// bands. It is then ordered by distance, stays within the guard bands, and
/// holds every such sample of the window.
pub proof fn lemma_profile_has_two(window: Seq<SpeedSample>, current: int, target: int)
    ensures
        profile_of(window, current, target) is Some <==> window.len() >= 2 && samples_within(
            window,
            current - GUARD_BAND_MM,
            target + GUARD_BAND_MM,
        ).len() >= 2,
        profile_of(window, current, target) is Some ==> {
            let profile = profile_of(window, current, target).unwrap();
            &&& profile.len() >= 2
            &&& profile.len() <= window.len()
            &&& ordered_by_distance(profile)
            &&& all_samples_within(profile, current - GUARD_BAND_MM, target + GUARD_BAND_MM)
            &&& profile.to_multiset() == samples_within(
                window,
                current - GUARD_BAND_MM,
                target + GUARD_BAND_MM,
            ).to_multiset()
        },
{
    let picked = samples_within(window, current - GUARD_BAND_MM, target + GUARD_BAND_MM);
    lemma_samples_within(window, current - GUARD_BAND_MM, target + GUARD_BAND_MM);
    lemma_sorted_by_distance(picked);
    lemma_sorted_stays_within(picked, current - GUARD_BAND_MM, target + GUARD_BAND_MM);
}

/// A window that is fed from empty never holds more than `window_size`
/// samples, and holds the most recent ones in the order they came.
pub proof fn lemma_window_holds_latest(window_size: nat, fed: Seq<SpeedSample>)
    requires
        window_size > 0,
    ensures
        window_after(window_size, fed).len() <= window_size,
        window_after(window_size, fed).len() <= fed.len(),
        window_after(window_size, fed).len() == window_size || window_after(
            window_size,
            fed,
        ).len() == fed.len(),
        window_after(window_size, fed) == fed.subrange(
            fed.len() - window_after(window_size, fed).len(),
            fed.len() as int,
        ),
    decreases fed.len(),
{
    if fed.len() > 0 {
        let head = fed.drop_last();
        lemma_window_holds_latest(window_size, head);
        let before = window_after(window_size, head);
        let after = window_after(window_size, fed);
        assert(after =~= fed.subrange(fed.len() - after.len(), fed.len() as int));
    } else {
        assert(window_after(window_size, fed) =~= fed.subrange(0, 0));
    }
}

} // verus!
