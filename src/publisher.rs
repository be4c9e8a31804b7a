//! The decisions of the publish loop, from its state and the last event to
//! its next state and action; the caller performs the actions.

use vstd::prelude::*;
use crate::control::{Reply, spec_status_code, spec_update_interval};
use crate::interval::Interval;

verus! {

/// Where the publish loop stands.
#[derive(Clone, Copy, Debug, PartialEq, Eq, Structural)]
pub enum Phase {
    /// Waiting for the broker connection.
    Connecting,
    /// Waiting for this tick's copy of the shared cells.
    Ticking,
    /// Waiting for the publish of this tick, with the interval read for it.
    Publishing(Interval),
    /// Waiting for the sleep to end.
    Sleeping,
    /// The connection failed; the loop is over.
    Stopped,
}

/// What happened since the last step.
#[derive(Clone, Copy, Debug, PartialEq, Eq, Structural)]
pub enum Event {
    Connected,
    ConnectFailed,
    /// The shared cells were read; this is the interval they held.
    Snapshot(Interval),
    /// The publish returned; `true` where the broker took the message.
    Published(bool),
    Woke,
}

/// What the caller does next.
#[derive(Clone, Copy, Debug, PartialEq, Eq, Structural)]
pub enum Action {
    /// Read the shared cells and report `Snapshot`.
    TakeSnapshot,
    /// Materialize the message from the copy, stamp it and publish it.
    Publish,
    /// Sleep this long, then report `Woke`.
    Sleep(Interval),
    /// Give up: the broker cannot be reached.
    Abort,
    /// Nothing to do for this event.
    Wait,
}

pub open spec fn spec_step(phase: Phase, event: Event) -> (Phase, Action) {
    match (phase, event) {
        (Phase::Connecting, Event::Connected) => (Phase::Ticking, Action::TakeSnapshot),
        (Phase::Connecting, Event::ConnectFailed) => (Phase::Stopped, Action::Abort),
        (Phase::Ticking, Event::Snapshot(iv)) => (Phase::Publishing(iv), Action::Publish),
        (Phase::Publishing(iv), Event::Published(_)) => (Phase::Sleeping, Action::Sleep(iv)),
        (Phase::Sleeping, Event::Woke) => (Phase::Ticking, Action::TakeSnapshot),
        _ => (phase, Action::Wait),
    }
}

/// One decision of the loop. A failed connection ends it; a failed publish
/// does not: either way the tick sleeps for the interval read at its start.
pub fn step(phase: Phase, event: Event) -> (r: (Phase, Action))
    ensures
        r == spec_step(phase, event),
{
    match (phase, event) {
        (Phase::Connecting, Event::Connected) => (Phase::Ticking, Action::TakeSnapshot),
        (Phase::Connecting, Event::ConnectFailed) => (Phase::Stopped, Action::Abort),
        (Phase::Ticking, Event::Snapshot(iv)) => (Phase::Publishing(iv), Action::Publish),
        (Phase::Publishing(iv), Event::Published(_)) => (Phase::Sleeping, Action::Sleep(iv)),
        (Phase::Sleeping, Event::Woke) => (Phase::Ticking, Action::TakeSnapshot),
        _ => (phase, Action::Wait),
    }
}

} // verus!

verus! {

/// A well-formed interval update is answered with success and an empty body,
/// and the next tick to read the cells sleeps for it; a tick whose copy was
/// taken before the update still sleeps for the old value.
pub proof fn lemma_interval_observed_next_tick(
    current: Interval,
    secs: u64,
    nanos: u32,
    published: bool,
)
    requires
        secs + nanos / 1_000_000_000 <= u64::MAX,
    ensures
        ({
            let (cell, reply) = spec_update_interval(current, Some((secs, nanos)));
            &&& reply == Reply::Done
            &&& spec_status_code(reply) == 200
            &&& cell.total_nanos() == secs * 1_000_000_000 + nanos
            &&& spec_step(spec_step(Phase::Ticking, Event::Snapshot(cell)).0, Event::Published(published))
                == (Phase::Sleeping, Action::Sleep(cell))
            &&& spec_step(Phase::Publishing(current), Event::Published(published))
                == (Phase::Sleeping, Action::Sleep(current))
        }),
{
    let cell = spec_update_interval(current, Some((secs, nanos))).0;
    assert(cell.total_nanos() == secs * 1_000_000_000 + nanos) by (nonlinear_arith)
        requires
            cell.secs == secs + nanos / 1_000_000_000,
            cell.nanos == nanos % 1_000_000_000,
    ;
}

} // verus!
