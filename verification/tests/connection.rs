use pit_timer::engine::{step, ConnAction, ConnEvent, ConnState, Handshake, FANOUT_LAG_LIMIT};
use pit_timer::estimator::process_packet;
use pit_timer::model::{SpeedSample, Status, TelemetryPacket, TimerConfig, TimerResult};

fn monaco() -> TimerConfig {
    TimerConfig { pit_entry_mm: 1_000_000, call_offset_mm: 50_000, buffer_ms: 3_000 }
}

fn packet(lap_distance_mm: i32) -> TelemetryPacket {
    TelemetryPacket { lap_distance_mm, speed_m_per_h: 180_000, speed_profile: None }
}

fn result(n: i64) -> TimerResult {
    TimerResult {
        t_call_ms: n,
        t_safe_ms: n - 3_000,
        status: Status::classify(n - 3_000),
        lap_distance_mm: 1,
        speed_m_per_h: 2,
    }
}

fn every_event() -> Vec<ConnEvent> {
    vec![
        ConnEvent::Handshake(Handshake::Accepted),
        ConnEvent::Handshake(Handshake::Abandoned),
        ConnEvent::Handshake(Handshake::Malformed),
        ConnEvent::Telemetry(packet(800_000)),
        ConnEvent::Unusable,
        ConnEvent::InboundEnded,
        ConnEvent::Broadcast(result(1)),
        ConnEvent::Lagged(7),
        ConnEvent::DeliveryFailed,
        ConnEvent::FanoutClosed,
    ]
}

/// Runs a connection over the events and gathers what it publishes and what
/// it delivers.
fn run(
    mut state: ConnState,
    events: Vec<ConnEvent>,
) -> (ConnState, Vec<TimerResult>, Vec<TimerResult>) {
    let cfg = monaco();
    let mut published = Vec::new();
    let mut delivered = Vec::new();
    for event in events {
        let (next, action) = step(state, event, &cfg);
        state = next;
        match action {
            ConnAction::Publish(r) => published.push(r),
            ConnAction::Deliver(r) => delivered.push(r),
            _ => {}
        }
    }
    (state, published, delivered)
}

#[test]
fn lag_limit_is_128_results() {
    assert_eq!(FANOUT_LAG_LIMIT, 128);
}

#[test]
fn handshake_decides_whether_the_connection_opens() {
    let cfg = monaco();
    assert_eq!(
        step(ConnState::Connecting, ConnEvent::Handshake(Handshake::Accepted), &cfg),
        (ConnState::Active, ConnAction::Proceed)
    );
    assert_eq!(
        step(ConnState::Connecting, ConnEvent::Handshake(Handshake::Abandoned), &cfg),
        (ConnState::Closed, ConnAction::Release { report: false })
    );
    assert_eq!(
        step(ConnState::Connecting, ConnEvent::Handshake(Handshake::Malformed), &cfg),
        (ConnState::Closed, ConnAction::Release { report: true })
    );
}

#[test]
fn nothing_is_produced_before_the_handshake() {
    let cfg = monaco();
    for event in every_event() {
        if let ConnEvent::Handshake(_) = event {
            continue;
        }
        assert_eq!(step(ConnState::Connecting, event, &cfg), (ConnState::Connecting, ConnAction::Proceed));
    }
}

#[test]
fn telemetry_is_estimated_and_published() {
    let cfg = monaco();
    let (state, action) = step(ConnState::Active, ConnEvent::Telemetry(packet(800_000)), &cfg);
    assert_eq!(state, ConnState::Active);
    assert_eq!(
        action,
        ConnAction::Publish(TimerResult {
            t_call_ms: 3_000,
            t_safe_ms: 0,
            status: Status::Red,
            lap_distance_mm: 800_000,
            speed_m_per_h: 180_000,
        })
    );
    let with_profile = TelemetryPacket {
        lap_distance_mm: 800_000,
        speed_m_per_h: 180_000,
        speed_profile: Some(vec![
            SpeedSample { x_mm: 800_000, v_mm_per_s: 50_000 },
            SpeedSample { x_mm: 950_000, v_mm_per_s: 25_000 },
        ]),
    };
    let expected = process_packet(&with_profile, &cfg);
    assert_eq!(expected.t_call_ms, 4_500);
    assert_eq!(
        step(ConnState::Active, ConnEvent::Telemetry(with_profile), &cfg),
        (ConnState::Active, ConnAction::Publish(expected))
    );
}

#[test]
fn unusable_messages_and_lag_are_passed_over() {
    let cfg = monaco();
    assert_eq!(step(ConnState::Active, ConnEvent::Unusable, &cfg), (ConnState::Active, ConnAction::Proceed));
    assert_eq!(step(ConnState::Active, ConnEvent::Lagged(0), &cfg), (ConnState::Active, ConnAction::Proceed));
    assert_eq!(
        step(ConnState::Active, ConnEvent::Lagged(u64::MAX), &cfg),
        (ConnState::Active, ConnAction::Proceed)
    );
    assert_eq!(
        step(ConnState::Active, ConnEvent::Handshake(Handshake::Malformed), &cfg),
        (ConnState::Active, ConnAction::Proceed)
    );
}

#[test]
fn broadcast_results_are_delivered_unchanged() {
    let cfg = monaco();
    for n in [-5, 0, 3_000, 9_999] {
        assert_eq!(
            step(ConnState::Active, ConnEvent::Broadcast(result(n)), &cfg),
            (ConnState::Active, ConnAction::Deliver(result(n)))
        );
    }
}

#[test]
fn either_direction_ending_closes_the_connection() {
    let cfg = monaco();
    for event in [ConnEvent::InboundEnded, ConnEvent::DeliveryFailed, ConnEvent::FanoutClosed] {
        assert_eq!(
            step(ConnState::Active, event, &cfg),
            (ConnState::Closed, ConnAction::Release { report: false })
        );
    }
}

#[test]
fn closed_connection_does_nothing() {
    let cfg = monaco();
    for event in every_event() {
        assert_eq!(step(ConnState::Closed, event, &cfg), (ConnState::Closed, ConnAction::Proceed));
    }
}

#[test]
fn consumer_that_keeps_pace_receives_every_result_in_order() {
    let mut events = vec![ConnEvent::Handshake(Handshake::Accepted)];
    for n in 0..300 {
        events.push(ConnEvent::Broadcast(result(n)));
        if n % 7 == 0 {
            events.push(ConnEvent::Unusable);
        }
        if n % 11 == 0 {
            events.push(ConnEvent::Telemetry(packet(700_000 + n as i32)));
        }
    }
    let (state, published, delivered) = run(ConnState::Connecting, events);
    assert_eq!(state, ConnState::Active);
    assert_eq!(delivered, (0..300).map(result).collect::<Vec<_>>());
    assert_eq!(published.len(), 28);
    assert_eq!(published[0], process_packet(&packet(700_000), &monaco()));
    assert_eq!(published[27], process_packet(&packet(700_297), &monaco()));
}

#[test]
fn lagging_consumer_goes_on_with_what_is_left() {
    let events = vec![
        ConnEvent::Broadcast(result(1)),
        ConnEvent::Lagged(130),
        ConnEvent::Broadcast(result(132)),
        ConnEvent::Broadcast(result(133)),
    ];
    let (state, _, delivered) = run(ConnState::Active, events);
    assert_eq!(state, ConnState::Active);
    assert_eq!(delivered, vec![result(1), result(132), result(133)]);
}

#[test]
fn one_consumer_leaving_does_not_stop_the_others() {
    let results: Vec<TimerResult> = (0..10).map(result).collect();
    let mut staying = Vec::new();
    let mut leaving = Vec::new();
    for (i, r) in results.iter().enumerate() {
        staying.push(ConnEvent::Broadcast(*r));
        leaving.push(ConnEvent::Broadcast(*r));
        if i == 3 {
            leaving.push(ConnEvent::DeliveryFailed);
        }
    }
    let (state, _, delivered) = run(ConnState::Active, leaving);
    assert_eq!(state, ConnState::Closed);
    assert_eq!(delivered, results[..4].to_vec());
    for _ in 0..3 {
        let (state, _, delivered) = run(ConnState::Active, staying.clone());
        assert_eq!(state, ConnState::Active);
        assert_eq!(delivered, results);
    }
}

#[test]
fn nothing_is_read_once_the_writer_has_failed() {
    let events = vec![
        ConnEvent::Telemetry(packet(800_000)),
        ConnEvent::DeliveryFailed,
        ConnEvent::Telemetry(packet(810_000)),
        ConnEvent::Broadcast(result(5)),
    ];
    let (state, published, delivered) = run(ConnState::Active, events);
    assert_eq!(state, ConnState::Closed);
    assert_eq!(published, vec![process_packet(&packet(800_000), &monaco())]);
    assert_eq!(delivered, vec![]);
}

#[test]
fn probe_never_produces_a_result() {
    let events = vec![
        ConnEvent::Handshake(Handshake::Abandoned),
        ConnEvent::Telemetry(packet(800_000)),
        ConnEvent::Broadcast(result(5)),
    ];
    let (state, published, delivered) = run(ConnState::Connecting, events);
    assert_eq!(state, ConnState::Closed);
    assert_eq!(published, vec![]);
    assert_eq!(delivered, vec![]);
}
