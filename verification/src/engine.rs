//! The decisions of one connection of the streaming service.
//!
//! The service accepts telemetry producers and result consumers over one kind
//! of connection. Whoever runs the connection performs the transport work and
//! reports what happened as an event; `step` says what the connection becomes
//! and what is to be done next. A connection holds no state beyond its phase,
//! so no connection can hold up another.

use crate::estimator::{process_packet, result_of};
use crate::model::{TelemetryPacket, TimerConfig, TimerResult};
use vstd::prelude::*;

verus! {

/// How many results may wait for one consumer; a consumer that falls further
/// behind misses the oldest of them.
pub const FANOUT_LAG_LIMIT: usize = 128;

/// The phase of a connection.
#[derive(Clone, Copy, Debug, PartialEq, Eq, Structural)]
pub enum ConnState {
    /// The transport handshake is under way.
    Connecting,
    /// Telemetry is read and results are written.
    Active,
    /// Both directions have stopped and nothing is held any more.
    Closed,
}

/// How a transport handshake ended.
#[derive(Clone, Copy, Debug, PartialEq, Eq, Structural)]
pub enum Handshake {
    /// The peer completed the handshake.
    Accepted,
    /// The peer left before it sent a handshake: a liveness probe.
    Abandoned,
    /// The peer sent something that is no valid handshake.
    Malformed,
}

/// What happened on a connection.
#[derive(Clone, Debug)]
pub enum ConnEvent {
    /// The handshake ended.
    Handshake(Handshake),
    /// A text message arrived that holds a telemetry packet.
    Telemetry(TelemetryPacket),
    /// A message arrived that is no text or holds no telemetry packet.
    Unusable,
    /// The inbound stream ended: the peer closed it or the transport failed.
    InboundEnded,
    /// The fan-out handed over the next result for this consumer.
    Broadcast(TimerResult),
    /// The consumer fell behind and the fan-out dropped this many results.
    Lagged(u64),
    /// A result could not be sent to the peer.
    DeliveryFailed,
    /// The fan-out has shut down.
    FanoutClosed,
}

/// What is to be done after an event.
#[derive(Clone, Copy, Debug, PartialEq, Eq, Structural)]
pub enum ConnAction {
    /// Wait for the next event.
    Proceed,
    /// Hand this result to the fan-out.
    Publish(TimerResult),
    /// Send this result to the peer.
    Deliver(TimerResult),
    /// Stop reading and writing and give up the subscription. The flag says
    /// whether the end is worth a line in the log.
    Release { report: bool },
}

/// Whether an event ends an active connection.
pub open spec fn ends_connection(event: ConnEvent) -> bool {
    event is InboundEnded || event is DeliveryFailed || event is FanoutClosed
}

/// The phase after an event.
pub open spec fn next_state(state: ConnState, event: ConnEvent) -> ConnState {
    match state {
        ConnState::Connecting => match event {
            ConnEvent::Handshake(Handshake::Accepted) => ConnState::Active,
            ConnEvent::Handshake(_) => ConnState::Closed,
            _ => ConnState::Connecting,
        },
        ConnState::Active => if ends_connection(event) {
            ConnState::Closed
        } else {
            ConnState::Active
        },
        ConnState::Closed => ConnState::Closed,
    }
}

/// What an event asks for in a phase.
pub open spec fn action_of(state: ConnState, event: ConnEvent, cfg: TimerConfig) -> ConnAction {
    match state {
        ConnState::Connecting => match event {
            ConnEvent::Handshake(Handshake::Accepted) => ConnAction::Proceed,
            ConnEvent::Handshake(Handshake::Abandoned) => ConnAction::Release { report: false },
            ConnEvent::Handshake(Handshake::Malformed) => ConnAction::Release { report: true },
            _ => ConnAction::Proceed,
        },
        ConnState::Active => match event {
            ConnEvent::Telemetry(packet) => ConnAction::Publish(result_of(packet, cfg)),
            ConnEvent::Broadcast(result) => ConnAction::Deliver(result),
            ConnEvent::InboundEnded => ConnAction::Release { report: false },
            ConnEvent::DeliveryFailed => ConnAction::Release { report: false },
            ConnEvent::FanoutClosed => ConnAction::Release { report: false },
            _ => ConnAction::Proceed,
        },
        ConnState::Closed => ConnAction::Proceed,
    }
}

/// Takes one event on a connection: gives the phase it is in afterwards and
/// what is to be done.
pub fn step(state: ConnState, event: ConnEvent, cfg: &TimerConfig) -> (r: (ConnState, ConnAction))
    ensures
        r.0 == next_state(state, event),
        r.1 == action_of(state, event, *cfg),
{
    match state {
        ConnState::Connecting => match event {
            ConnEvent::Handshake(Handshake::Accepted) => (ConnState::Active, ConnAction::Proceed),
            ConnEvent::Handshake(Handshake::Abandoned) => (
                ConnState::Closed,
                ConnAction::Release { report: false },
            ),
            ConnEvent::Handshake(Handshake::Malformed) => (
                ConnState::Closed,
                ConnAction::Release { report: true },
            ),
            _ => (ConnState::Connecting, ConnAction::Proceed),
        },
        ConnState::Active => match event {
            ConnEvent::Telemetry(packet) => (
                ConnState::Active,
                ConnAction::Publish(process_packet(&packet, cfg)),
            ),
            ConnEvent::Broadcast(result) => (ConnState::Active, ConnAction::Deliver(result)),
            ConnEvent::InboundEnded | ConnEvent::DeliveryFailed | ConnEvent::FanoutClosed => (
                ConnState::Closed,
                ConnAction::Release { report: false },
            ),
            _ => (ConnState::Active, ConnAction::Proceed),
        },
        ConnState::Closed => (ConnState::Closed, ConnAction::Proceed),
    }
}

/// The phase of a connection after a run of events.
pub open spec fn state_after(state: ConnState, events: Seq<ConnEvent>) -> ConnState
    decreases events.len(),
{
    if events.len() == 0 {
        state
    } else {
        next_state(state_after(state, events.drop_last()), events.last())
    }
}

/// The results that a connection sends to its peer over a run of events, in
/// the order in which it sends them.
pub open spec fn deliveries(state: ConnState, events: Seq<ConnEvent>, cfg: TimerConfig) -> Seq<
    TimerResult,
>
    decreases events.len(),
{
    if events.len() == 0 {
        Seq::empty()
    } else {
        let earlier = deliveries(state, events.drop_last(), cfg);
        match action_of(state_after(state, events.drop_last()), events.last(), cfg) {
            ConnAction::Deliver(result) => earlier.push(result),
            _ => earlier,
        }
    }
}

/// The results that a connection hands to the fan-out over a run of events,
/// in the order in which it hands them over.
pub open spec fn publications(state: ConnState, events: Seq<ConnEvent>, cfg: TimerConfig) -> Seq<
    TimerResult,
>
    decreases events.len(),
{
    if events.len() == 0 {
        Seq::empty()
    } else {
        let earlier = publications(state, events.drop_last(), cfg);
        match action_of(state_after(state, events.drop_last()), events.last(), cfg) {
            ConnAction::Publish(result) => earlier.push(result),
            _ => earlier,
        }
    }
}

/// The results that the fan-out handed over during a run of events.
pub open spec fn broadcasts(events: Seq<ConnEvent>) -> Seq<TimerResult>
    decreases events.len(),
{
    if events.len() == 0 {
        Seq::empty()
    } else {
        let earlier = broadcasts(events.drop_last());
        match events.last() {
            ConnEvent::Broadcast(result) => earlier.push(result),
            _ => earlier,
        }
    }
}

/// The results of the telemetry packets that arrived during a run of events.
pub open spec fn telemetry_results(events: Seq<ConnEvent>, cfg: TimerConfig) -> Seq<TimerResult>
    decreases events.len(),
{
    if events.len() == 0 {
        Seq::empty()
    } else {
        let earlier = telemetry_results(events.drop_last(), cfg);
        match events.last() {
            ConnEvent::Telemetry(packet) => earlier.push(result_of(packet, cfg)),
            _ => earlier,
        }
    }
}

/// A closed connection stays closed, and neither sends nor publishes.
pub proof fn lemma_closed_is_final(events: Seq<ConnEvent>, cfg: TimerConfig)
    ensures
        state_after(ConnState::Closed, events) == ConnState::Closed,
        deliveries(ConnState::Closed, events, cfg) == Seq::<TimerResult>::empty(),
        publications(ConnState::Closed, events, cfg) == Seq::<TimerResult>::empty(),
    decreases events.len(),
{
    if events.len() > 0 {
        lemma_closed_is_final(events.drop_last(), cfg);
    }
}

/// Until its handshake has ended a connection neither sends nor publishes.
pub proof fn lemma_nothing_before_handshake(events: Seq<ConnEvent>, cfg: TimerConfig)
    requires
        forall|i: int| 0 <= i < events.len() ==> !(#[trigger] events[i] is Handshake),
    ensures
        state_after(ConnState::Connecting, events) == ConnState::Connecting,
        deliveries(ConnState::Connecting, events, cfg) == Seq::<TimerResult>::empty(),
        publications(ConnState::Connecting, events, cfg) == Seq::<TimerResult>::empty(),
    decreases events.len(),
{
    if events.len() > 0 {
        let head = events.drop_last();
        assert forall|i: int| 0 <= i < head.len() implies !(#[trigger] head[i] is Handshake) by {
            assert(head[i] == events[i]);
        }
        lemma_nothing_before_handshake(head, cfg);
        assert(!(events[events.len() - 1] is Handshake));
    }
}

/// While nothing ends it, an active connection sends its peer every result
/// that the fan-out hands over, in the order in which they come, and
/// publishes the result of every packet that arrives, in the order in which
/// they arrive. Unusable messages and lag make no difference, and nothing
/// that happens on another connection enters into it.
pub proof fn lemma_active_passes_everything_on(events: Seq<ConnEvent>, cfg: TimerConfig)
    requires
        forall|i: int| 0 <= i < events.len() ==> !ends_connection(#[trigger] events[i]),
    ensures
        state_after(ConnState::Active, events) == ConnState::Active,
        deliveries(ConnState::Active, events, cfg) == broadcasts(events),
        publications(ConnState::Active, events, cfg) == telemetry_results(events, cfg),
    decreases events.len(),
{
    if events.len() > 0 {
        let head = events.drop_last();
        assert forall|i: int| 0 <= i < head.len() implies !ends_connection(#[trigger] head[i]) by {
            assert(head[i] == events[i]);
        }
        lemma_active_passes_everything_on(head, cfg);
        assert(!ends_connection(events[events.len() - 1]));
    }
}

/// Once an event has ended an active connection, nothing that follows is
/// sent or published: what the connection did is what it did up to there.
pub proof fn lemma_end_stops_both_directions(
    before: Seq<ConnEvent>,
    end: ConnEvent,
    after: Seq<ConnEvent>,
    cfg: TimerConfig,
)
    requires
        forall|i: int| 0 <= i < before.len() ==> !ends_connection(#[trigger] before[i]),
        ends_connection(end),
    ensures
        state_after(ConnState::Active, before.push(end) + after) == ConnState::Closed,
        deliveries(ConnState::Active, before.push(end) + after, cfg) == broadcasts(before),
        publications(ConnState::Active, before.push(end) + after, cfg) == telemetry_results(
            before,
            cfg,
        ),
    decreases after.len(),
{
    let all = before.push(end) + after;
    if after.len() == 0 {
        assert(all =~= before.push(end));
        assert(all.drop_last() =~= before);
        assert(all.last() == end);
        lemma_active_passes_everything_on(before, cfg);
    } else {
        let shorter = after.drop_last();
        assert(all.drop_last() =~= before.push(end) + shorter);
        lemma_end_stops_both_directions(before, end, shorter, cfg);
    }
}

/// Whatever happens on it, an active connection sends its peer the results
/// that the fan-out handed over, in their order, from the first up to some
/// point: it sends nothing else, leaves nothing out in between, and changes
/// no order. As long as it is active it has sent them all.
pub proof fn lemma_deliveries_follow_broadcasts(events: Seq<ConnEvent>, cfg: TimerConfig)
    ensures
        deliveries(ConnState::Active, events, cfg).is_prefix_of(broadcasts(events)),
        state_after(ConnState::Active, events) != ConnState::Connecting,
        state_after(ConnState::Active, events) == ConnState::Active ==> deliveries(
            ConnState::Active,
            events,
            cfg,
        ) == broadcasts(events),
    decreases events.len(),
{
    if events.len() > 0 {
        lemma_deliveries_follow_broadcasts(events.drop_last(), cfg);
    }
}

/// Fan-out to any number of consumers: where each consumer is handed the
/// results `results` in the order in which they were published, every
/// consumer that nothing ends is sent all of them in that order, and one that
/// ends on the way was sent the first of them. What happens to one consumer
/// has no part in what another is sent.
pub proof fn lemma_fan_out_reaches_every_open_consumer(
    results: Seq<TimerResult>,
    streams: Seq<Seq<ConnEvent>>,
    cfg: TimerConfig,
)
    requires
        forall|c: int| 0 <= c < streams.len() ==> broadcasts(#[trigger] streams[c]) == results,
    ensures
        forall|c: int|
            0 <= c < streams.len() ==> deliveries(
                ConnState::Active,
                #[trigger] streams[c],
                cfg,
            ).is_prefix_of(results),
        forall|c: int|
            0 <= c < streams.len() && state_after(ConnState::Active, #[trigger] streams[c])
                == ConnState::Active ==> deliveries(ConnState::Active, streams[c], cfg) == results,
{
    assert forall|c: int| 0 <= c < streams.len() implies deliveries(
        ConnState::Active,
        #[trigger] streams[c],
        cfg,
    ).is_prefix_of(results) && (state_after(ConnState::Active, streams[c]) == ConnState::Active
        ==> deliveries(ConnState::Active, streams[c], cfg) == results) by {
        lemma_deliveries_follow_broadcasts(streams[c], cfg);
    }
}

} // verus!
