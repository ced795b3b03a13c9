//! The prewarm pool: one task that keeps at most one idle backend socket
//! dialed ahead of need, as a machine that is told what happened and
//! answers what to do next.

use vstd::prelude::*;

verus! {

/// The seconds to wait after a failed dial before the next one.
pub const BACKOFF_SECONDS: u64 = 1;

/// Where the pool stands.
#[derive(Clone, Copy, Debug, PartialEq, Eq, Structural)]
pub enum PoolState {
    /// No socket is held; one dial is under way.
    Dialing,
    /// No socket is held; the last dial failed and the backoff runs.
    BackingOff,
    /// One idle socket is held; the next request is waited for.
    Idle,
    /// The request channel is closed: the manager has left.
    Stopped,
}

/// What happened to the pool.
#[derive(Clone, Copy, Debug, PartialEq, Eq, Structural)]
pub enum PoolEvent {
    /// The dial gave a socket.
    DialSucceeded,
    /// The dial failed.
    DialFailed,
    /// The backoff is over.
    BackoffElapsed,
    /// A connection asks for the idle socket.
    Requested,
    /// The request channel is closed.
    ChannelClosed,
}

/// What the pool's task is to do next.
#[derive(Clone, Copy, Debug, PartialEq, Eq, Structural)]
pub enum PoolAction {
    /// Dial the backend.
    Dial,
    /// Log the failure and wait so many seconds.
    Backoff(u64),
    /// Keep the socket and wait for the next request.
    AwaitRequest,
    /// Hand the idle socket to the one who asked, then dial the backend
    /// again.
    ServeThenDial,
    /// Go on waiting for what was already waited for.
    Wait,
    /// Leave.
    Exit,
}

/// The number of idle sockets that the pool holds in `state`.
pub open spec fn idle_sockets(state: PoolState) -> nat {
    if state == PoolState::Idle {
        1
    } else {
        0
    }
}

/// The number of dials that the pool has under way in `state`.
pub open spec fn dials_in_flight(state: PoolState) -> nat {
    if state == PoolState::Dialing {
        1
    } else {
        0
    }
}

/// What the pool in `state` becomes on `event`, and what is to be done
/// then. A closed channel stops the pool wherever it stands; a failed dial
/// never does. An event that the state does not wait for changes nothing.
pub open spec fn pool_next(state: PoolState, event: PoolEvent) -> (PoolState, PoolAction) {
    match (state, event) {
        (PoolState::Stopped, _) => (PoolState::Stopped, PoolAction::Exit),
        (_, PoolEvent::ChannelClosed) => (PoolState::Stopped, PoolAction::Exit),
        (PoolState::Dialing, PoolEvent::DialSucceeded) => (
            PoolState::Idle,
            PoolAction::AwaitRequest,
        ),
        (PoolState::Dialing, PoolEvent::DialFailed) => (
            PoolState::BackingOff,
            PoolAction::Backoff(BACKOFF_SECONDS),
        ),
        (PoolState::BackingOff, PoolEvent::BackoffElapsed) => (
            PoolState::Dialing,
            PoolAction::Dial,
        ),
        (PoolState::Idle, PoolEvent::Requested) => (PoolState::Dialing, PoolAction::ServeThenDial),
        (_, _) => (state, PoolAction::Wait),
    }
}

/// Whether an action starts a dial.
pub open spec fn starts_dial(action: PoolAction) -> bool {
    action == PoolAction::Dial || action == PoolAction::ServeThenDial
}

impl PoolState {
    /// The pool at its start: it holds nothing, and its first dial is under
    /// way.
    pub fn start() -> (first: (PoolState, PoolAction))
        ensures
            first == (PoolState::Dialing, PoolAction::Dial),
    {
        (PoolState::Dialing, PoolAction::Dial)
    }

    /// Takes the pool one step on.
    pub fn step(self, event: PoolEvent) -> (r: (PoolState, PoolAction))
        ensures
            r == pool_next(self, event),
    {
        match (self, event) {
            (PoolState::Stopped, _) => (PoolState::Stopped, PoolAction::Exit),
            (_, PoolEvent::ChannelClosed) => (PoolState::Stopped, PoolAction::Exit),
            (PoolState::Dialing, PoolEvent::DialSucceeded) => (
                PoolState::Idle,
                PoolAction::AwaitRequest,
            ),
            (PoolState::Dialing, PoolEvent::DialFailed) => (
                PoolState::BackingOff,
                PoolAction::Backoff(BACKOFF_SECONDS),
            ),
            (PoolState::BackingOff, PoolEvent::BackoffElapsed) => (
                PoolState::Dialing,
                PoolAction::Dial,
            ),
            (PoolState::Idle, PoolEvent::Requested) => (
                PoolState::Dialing,
                PoolAction::ServeThenDial,
            ),
            (_, _) => (self, PoolAction::Wait),
        }
    }
}

/// At any time the pool holds at most one idle socket and has at most one
/// dial under way, and never both. A dial is started only where none is
/// under way and no socket is held once it starts, and a socket is handed
/// over only where one is held.
pub proof fn lemma_single_slot(state: PoolState, event: PoolEvent)
    ensures
        idle_sockets(state) + dials_in_flight(state) <= 1,
        starts_dial(pool_next(state, event).1) ==> dials_in_flight(state) == 0 && dials_in_flight(
            pool_next(state, event).0,
        ) == 1,
        pool_next(state, event).1 == PoolAction::ServeThenDial ==> idle_sockets(state) == 1
            && idle_sockets(pool_next(state, event).0) == 0,
{
}

/// A failed dial never stops the pool: it waits the backoff and dials
/// again.
pub proof fn lemma_failed_dial_is_retried(state: PoolState)
    requires
        state == PoolState::Dialing,
    ensures
        pool_next(state, PoolEvent::DialFailed) == (
            PoolState::BackingOff,
            PoolAction::Backoff(BACKOFF_SECONDS),
        ),
        pool_next(PoolState::BackingOff, PoolEvent::BackoffElapsed) == (
            PoolState::Dialing,
            PoolAction::Dial,
        ),
{
}

/// The pool stops when the request channel is closed, and only then.
pub proof fn lemma_stops_on_closed_channel_only(state: PoolState, event: PoolEvent)
    requires
        state != PoolState::Stopped,
    ensures
        pool_next(state, event).0 == PoolState::Stopped <==> event == PoolEvent::ChannelClosed,
        pool_next(state, event).1 == PoolAction::Exit <==> event == PoolEvent::ChannelClosed,
{
}

/// A pool whose dial succeeded serves the next request at once, dials again
/// by itself, and with that dial's success serves a second request: the one
/// who asked does nothing in between.
pub proof fn lemma_serves_then_refills(state: PoolState)
    requires
        state == PoolState::Dialing,
    ensures
        ({
            let (held, wait) = pool_next(state, PoolEvent::DialSucceeded);
            let (refilling, served) = pool_next(held, PoolEvent::Requested);
            let (held_again, wait_again) = pool_next(refilling, PoolEvent::DialSucceeded);
            let (after, served_again) = pool_next(held_again, PoolEvent::Requested);
            &&& held == PoolState::Idle
            &&& wait == PoolAction::AwaitRequest
            &&& served == PoolAction::ServeThenDial
            &&& refilling == PoolState::Dialing
            &&& held_again == PoolState::Idle
            &&& wait_again == PoolAction::AwaitRequest
            &&& served_again == PoolAction::ServeThenDial
            &&& after == PoolState::Dialing
        }),
{
}

} // verus!
