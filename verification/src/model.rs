//! The values that travel through the timer: samples, packets, configuration
//! and results.

use vstd::prelude::*;

verus! {

/// One observation of speed at a point of the lap.
#[derive(Clone, Copy, Debug, PartialEq, Eq, Structural)]
pub struct SpeedSample {
    /// Distance along the lap, in millimetres.
    pub x_mm: i32,
    /// Speed at that distance, in millimetres per second.
    pub v_mm_per_s: i32,
}

/// The traffic light shown to the pit wall.
#[derive(Clone, Copy, Debug, PartialEq, Eq, Structural)]
pub enum Status {
    LockedOut,
    Red,
    Amber,
    Green,
}

/// Track and strategy constants, fixed for the lifetime of the service.
#[derive(Clone, Copy, Debug, PartialEq, Eq, Structural)]
pub struct TimerConfig {
    /// Lap distance of the pit entry, in millimetres.
    pub pit_entry_mm: i32,
    /// How far before the pit entry the call has to be made, in millimetres.
    pub call_offset_mm: i32,
    /// Safety margin taken off the time to call, in milliseconds.
    pub buffer_ms: i32,
}

/// One telemetry message.
#[derive(Clone, Debug)]
pub struct TelemetryPacket {
    /// Distance along the lap, in millimetres.
    pub lap_distance_mm: i32,
    /// Speed in metres per hour (thousandths of a km/h).
    pub speed_m_per_h: i32,
    /// Recent speed history supplied by the producer, if any.
    pub speed_profile: Option<Vec<SpeedSample>>,
}

/// What is broadcast for one processed packet.
#[derive(Clone, Copy, Debug, PartialEq, Eq, Structural)]
pub struct TimerResult {
    /// Estimated time until the call point is reached, in milliseconds.
    pub t_call_ms: i64,
    /// `t_call_ms` less the configured safety margin.
    pub t_safe_ms: i64,
    pub status: Status,
    /// Echo of the packet's lap distance, in millimetres.
    pub lap_distance_mm: i32,
    /// Echo of the packet's speed, in metres per hour.
    pub speed_m_per_h: i32,
}

/// Below this many milliseconds of safe time the light is red.
pub const RED_BELOW_MS: i64 = 2_000;

/// Below this many milliseconds of safe time the light is amber.
pub const AMBER_BELOW_MS: i64 = 5_000;

/// The light that belongs to a safe time: locked out once the safe moment has
/// passed, then red, amber and green, each band closed below and open above.
pub open spec fn status_of(t_safe_ms: int) -> Status {
    if t_safe_ms < 0 {
        Status::LockedOut
    } else if t_safe_ms < RED_BELOW_MS {
        Status::Red
    } else if t_safe_ms < AMBER_BELOW_MS {
        Status::Amber
    } else {
        Status::Green
    }
}

impl Status {
    /// Classifies a safe time given in milliseconds.
    pub fn classify(t_safe_ms: i64) -> (status: Status)
        ensures
            status == status_of(t_safe_ms as int),
    {
        if t_safe_ms < 0 {
            Status::LockedOut
        } else if t_safe_ms < RED_BELOW_MS {
            Status::Red
        } else if t_safe_ms < AMBER_BELOW_MS {
            Status::Amber
        } else {
            Status::Green
        }
    }

    /// The name of the light on the wire.
    pub fn label(&self) -> (name: &'static str)
        ensures
            name@ == status_label(*self),
    {
        match self {
            Status::LockedOut => "LOCKED_OUT",
            Status::Red => "RED",
            Status::Amber => "AMBER",
            Status::Green => "GREEN",
        }
    }
}

/// The wire name of each light.
pub open spec fn status_label(status: Status) -> Seq<char> {
    match status {
        Status::LockedOut => "LOCKED_OUT"@,
        Status::Red => "RED"@,
        Status::Amber => "AMBER"@,
        Status::Green => "GREEN"@,
    }
}

/// Each safe time has exactly one light, and the bounds 0, 2 s and 5 s each
/// belong to the band above them.
pub proof fn lemma_status_bands(t_safe_ms: int)
    ensures
        status_of(t_safe_ms) == Status::LockedOut <==> t_safe_ms < 0,
        status_of(t_safe_ms) == Status::Red <==> 0 <= t_safe_ms < 2_000,
        status_of(t_safe_ms) == Status::Amber <==> 2_000 <= t_safe_ms < 5_000,
        status_of(t_safe_ms) == Status::Green <==> 5_000 <= t_safe_ms,
{
}

} // verus!
