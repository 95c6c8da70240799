//! The time left before the pit call has to be made, and the light that goes
//! with it.

use crate::integrate::{
    floored_speed, integrate_time_over_profile, integrated_time, MIN_SPEED_MM_PER_S,
};
use crate::integrate_laws::{lemma_constant_speed_profile, lemma_steady_profile_time};
use crate::model::{status_of, SpeedSample, Status, TelemetryPacket, TimerConfig, TimerResult};
use crate::units::{lemma_steady_time_bounds, mm_per_s_of, speed_mm_per_s, steady_time};
use vstd::prelude::*;

verus! {

/// The lap distance at which the call has to be made.
pub open spec fn call_point(cfg: TimerConfig) -> int {
    cfg.pit_entry_mm - cfg.call_offset_mm
}

/// The distance left to the call point; nothing once it has been passed.
pub open spec fn remaining_distance(lap_distance_mm: int, cfg: TimerConfig) -> int {
    if call_point(cfg) > lap_distance_mm {
        call_point(cfg) - lap_distance_mm
    } else {
        0
    }
}

/// The reported speed in millimetres per second, raised to the slowest speed
/// that is divided by.
pub open spec fn instantaneous_speed(speed_m_per_h: int) -> int {
    floored_speed(mm_per_s_of(speed_m_per_h))
}

/// The profile that a packet carries, as a sequence.
pub open spec fn packet_profile(packet: TelemetryPacket) -> Option<Seq<SpeedSample>> {
    match packet.speed_profile {
        None => None,
        Some(samples) => Some(samples@),
    }
}

/// The time to call for a packet: the time integrated along its profile over
/// the stretch from the car to the call point, or, where that gives no answer,
/// the remaining distance at the instantaneous speed.
pub open spec fn call_time(packet: TelemetryPacket, cfg: TimerConfig) -> int {
    let v = instantaneous_speed(packet.speed_m_per_h as int);
    match integrated_time(
        packet.lap_distance_mm as i64,
        call_point(cfg) as i64,
        packet_profile(packet),
        v as i32,
    ) {
        Some(t) => t,
        None => steady_time(remaining_distance(packet.lap_distance_mm as int, cfg), v),
    }
}

/// The time to call less the safety margin.
pub open spec fn safe_time(packet: TelemetryPacket, cfg: TimerConfig) -> int {
    call_time(packet, cfg) - cfg.buffer_ms
}

/// Estimates the time to call, the time to the last safe call, and the light,
/// in that order.
pub fn time_to_call(d: &TelemetryPacket, cfg: &TimerConfig) -> (r: (i64, i64, Status))
    ensures
        r.0 == call_time(*d, *cfg),
        r.1 == r.0 - cfg.buffer_ms,
        r.2 == status_of(r.1 as int),
        0 <= r.0,
{
    let call_at_mm: i64 = cfg.pit_entry_mm as i64 - cfg.call_offset_mm as i64;
    let start_x: i64 = d.lap_distance_mm as i64;
    let end_x: i64 = call_at_mm;
    let d_rem: i64 = if end_x > start_x {
        end_x - start_x
    } else {
        0
    };
    let converted = speed_mm_per_s(d.speed_m_per_h);
    let v_inst: i32 = if converted < MIN_SPEED_MM_PER_S {
        MIN_SPEED_MM_PER_S
    } else {
        converted
    };
    let profile: Option<&Vec<SpeedSample>> = match &d.speed_profile {
        None => None,
        Some(samples) => Some(samples),
    };
    let t_call: i64 = match integrate_time_over_profile(start_x, end_x, profile, v_inst) {
        Some(t) => t,
        None => {
            proof {
                lemma_steady_time_bounds(d_rem as int, v_inst as int);
            }
            d_rem * 1000 / (v_inst as i64)
        },
    };
    let t_safe: i64 = t_call - cfg.buffer_ms as i64;
    (t_call, t_safe, Status::classify(t_safe))
}

/// Runs the estimator on a packet and packs what is broadcast for it.
pub fn process_packet(packet: &TelemetryPacket, cfg: &TimerConfig) -> (out: TimerResult)
    ensures
        out == result_of(*packet, *cfg),
{
    let (t_call_ms, t_safe_ms, status) = time_to_call(packet, cfg);
    TimerResult {
        t_call_ms,
        t_safe_ms,
        status,
        lap_distance_mm: packet.lap_distance_mm,
        speed_m_per_h: packet.speed_m_per_h,
    }
}

/// What is broadcast for a packet.
pub open spec fn result_of(packet: TelemetryPacket, cfg: TimerConfig) -> TimerResult {
    TimerResult {
        t_call_ms: call_time(packet, cfg) as i64,
        t_safe_ms: safe_time(packet, cfg) as i64,
        status: status_of(safe_time(packet, cfg)),
        lap_distance_mm: packet.lap_distance_mm,
        speed_m_per_h: packet.speed_m_per_h,
    }
}

/// Without a profile the time to call is the remaining distance at the
/// instantaneous speed.
pub proof fn lemma_call_time_without_profile(packet: TelemetryPacket, cfg: TimerConfig)
    requires
        packet.speed_profile is None,
    ensures
        call_time(packet, cfg) == steady_time(
            remaining_distance(packet.lap_distance_mm as int, cfg),
            instantaneous_speed(packet.speed_m_per_h as int),
        ),
{
}

/// At or past the call point nothing remains: the distance left and the time
/// to call are both zero, with a profile or without, and the safe time is the
/// margin below zero.
pub proof fn lemma_nothing_left_past_call_point(packet: TelemetryPacket, cfg: TimerConfig)
    requires
        packet.lap_distance_mm >= call_point(cfg),
    ensures
        remaining_distance(packet.lap_distance_mm as int, cfg) == 0,
        call_time(packet, cfg) == 0,
        safe_time(packet, cfg) == -cfg.buffer_ms,
{
    lemma_steady_time_bounds(0, instantaneous_speed(packet.speed_m_per_h as int));
}

/// The safe time is the time to call less the margin, and the light broadcast
/// for a packet is the one that belongs to its safe time.
pub proof fn lemma_result_is_consistent(packet: TelemetryPacket, cfg: TimerConfig)
    ensures
        safe_time(packet, cfg) == call_time(packet, cfg) - cfg.buffer_ms,
        result_of(packet, cfg).status == status_of(safe_time(packet, cfg)),
        result_of(packet, cfg).lap_distance_mm == packet.lap_distance_mm,
        result_of(packet, cfg).speed_m_per_h == packet.speed_m_per_h,
{
}

/// A packet whose profile runs in increasing order from the car to the call
/// point, all at one speed `v`, has the time to call that the remaining
/// distance takes at `v`: exactly for two samples, and short by less than one
/// millisecond for each sample in between.
pub proof fn lemma_call_time_at_one_speed(packet: TelemetryPacket, cfg: TimerConfig, v: i32)
    requires
        packet.speed_profile is Some,
        v >= MIN_SPEED_MM_PER_S,
        ({
            let samples = packet.speed_profile.unwrap()@;
            &&& samples.len() >= 2
            &&& samples.first().x_mm == packet.lap_distance_mm
            &&& samples.last().x_mm == call_point(cfg)
            &&& forall|i: int, j: int|
                0 <= i < j < samples.len() ==> samples[i].x_mm < samples[j].x_mm
            &&& forall|i: int| 0 <= i < samples.len() ==> (#[trigger] samples[i]).v_mm_per_s == v
        }),
    ensures
        call_time(packet, cfg) <= steady_time(
            remaining_distance(packet.lap_distance_mm as int, cfg),
            v as int,
        ),
        call_time(packet, cfg) >= steady_time(
            remaining_distance(packet.lap_distance_mm as int, cfg),
            v as int,
        ) - (packet.speed_profile.unwrap()@.len() - 2),
{
    let samples = packet.speed_profile.unwrap()@;
    assert(samples[0].x_mm < samples[samples.len() - 1].x_mm);
    lemma_constant_speed_profile(
        packet.lap_distance_mm as i64,
        call_point(cfg) as i64,
        samples,
        v,
        instantaneous_speed(packet.speed_m_per_h as int) as i32,
    );
}

/// How many samples the profile of a packet holds; none without a profile.
pub open spec fn profile_len(packet: TelemetryPacket) -> nat {
    match packet.speed_profile {
        None => 0,
        Some(samples) => samples@.len(),
    }
}

/// A packet whose profile agrees with its instantaneous speed `v` on the
/// whole stretch to the call point has the time to call that the remaining
/// distance takes at `v`, short by less than one millisecond for each sample
/// of the profile.
pub proof fn lemma_call_time_at_steady_speed(packet: TelemetryPacket, cfg: TimerConfig)
    requires
        packet.speed_profile matches Some(samples) ==> forall|i: int|
            0 <= i < samples@.len() && packet.lap_distance_mm <= (#[trigger] samples@[i]).x_mm
                <= call_point(cfg) ==> floored_speed(samples@[i].v_mm_per_s as int)
                == instantaneous_speed(packet.speed_m_per_h as int),
    ensures
        call_time(packet, cfg) <= steady_time(
            remaining_distance(packet.lap_distance_mm as int, cfg),
            instantaneous_speed(packet.speed_m_per_h as int),
        ),
        call_time(packet, cfg) >= steady_time(
            remaining_distance(packet.lap_distance_mm as int, cfg),
            instantaneous_speed(packet.speed_m_per_h as int),
        ) - profile_len(packet),
{
    let v = instantaneous_speed(packet.speed_m_per_h as int);
    let start = packet.lap_distance_mm as i64;
    let end = call_point(cfg) as i64;
    lemma_steady_time_bounds(0, v);
    if packet.speed_profile is Some && start < end {
        lemma_steady_profile_time(start, end, packet.speed_profile.unwrap()@, v as i32, v);
    }
}

} // verus!
