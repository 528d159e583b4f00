//! The decisions of a session worker: heartbeat, timeout, control frames,
//! and closing, which takes the session out of the registry.

use vstd::prelude::*;
use crate::registry::ServerState;
use crate::event::EventSpec;

verus! {

/// How often a ping is sent, in milliseconds.
pub const HEARTBEAT_INTERVAL_MS: u64 = 15_000;

/// How long a subscriber may stay silent before the session closes, in
/// milliseconds.
pub const CLIENT_TIMEOUT_MS: u64 = 40_000;

/// The phases of a session.
#[derive(Debug, Clone, Copy, PartialEq, Eq, Structural)]
pub enum SessionPhase {
    Active,
    Closing,
    Closed,
}

/// What the worker observes.
#[derive(Debug)]
pub enum SessionEvent {
    /// The heartbeat timer fired at this time.
    Tick { now: u64 },
    /// The subscriber pinged with this body.
    Ping { body: Vec<u8> },
    /// The subscriber answered a ping at this time.
    Pong { now: u64 },
    /// The subscriber closed the channel.
    Close,
    /// Reading from the transport failed.
    ReadError,
    /// Writing to the transport failed.
    SendError,
    /// Any other inbound frame.
    Other,
}

/// What the worker does next.
#[derive(Debug)]
pub enum SessionAction {
    /// Send a ping.
    SendPing,
    /// Answer a ping with the same body.
    SendPong(Vec<u8>),
    /// Close the transport and take the session out of the registry.
    Close,
    /// Nothing.
    Nothing,
}

/// One subscriber's worker state.
#[derive(Debug, Clone, Copy)]
pub struct SessionWorker {
    pub phase: SessionPhase,
    /// When the subscriber last answered, in milliseconds.
    pub last_pong_at: u64,
    /// The heartbeat period, in milliseconds.
    pub heartbeat_interval: u64,
    /// The silence after which the session closes, in milliseconds.
    pub client_timeout: u64,
}

/// Whether the silence since the last answer is longer than allowed.
pub open spec fn timed_out(w: SessionWorker, now: u64) -> bool {
    now > w.last_pong_at && now - w.last_pong_at > w.client_timeout
}

impl SessionWorker {
    /// A worker, active from `now`, with the default heartbeat and timeout.
    pub fn new(now: u64) -> (r: SessionWorker)
        ensures
            r.phase == SessionPhase::Active,
            r.last_pong_at == now,
            r.heartbeat_interval == HEARTBEAT_INTERVAL_MS,
            r.client_timeout == CLIENT_TIMEOUT_MS,
    {
        SessionWorker {
            phase: SessionPhase::Active,
            last_pong_at: now,
            heartbeat_interval: HEARTBEAT_INTERVAL_MS,
            client_timeout: CLIENT_TIMEOUT_MS,
        }
    }

    /// Takes one event while active. A tick after too long a silence, a
    /// close, or a read or send error moves to `Closing`; a tick otherwise
    /// sends a ping; a ping is answered; a pong records its time. Outside
    /// `Active` nothing happens.
    pub fn on_event(&mut self, ev: SessionEvent) -> (r: SessionAction)
        ensures
            final(self).heartbeat_interval == old(self).heartbeat_interval,
            final(self).client_timeout == old(self).client_timeout,
            old(self).phase != SessionPhase::Active ==> *final(self) == *old(self) && r is Nothing,
            old(self).phase == SessionPhase::Active ==> match ev {
                SessionEvent::Tick { now } => if timed_out(*old(self), now) {
                    final(self).phase == SessionPhase::Closing && r is Close
                        && final(self).last_pong_at == old(self).last_pong_at
                } else {
                    *final(self) == *old(self) && r is SendPing
                },
                SessionEvent::Ping { body } => *final(self) == *old(self) && r == SessionAction::SendPong(body),
                SessionEvent::Pong { now } => final(self).phase == SessionPhase::Active
                    && final(self).last_pong_at == now && r is Nothing,
                SessionEvent::Close | SessionEvent::ReadError | SessionEvent::SendError => final(self).phase
                    == SessionPhase::Closing && final(self).last_pong_at == old(self).last_pong_at
                    && r is Close,
                SessionEvent::Other => *final(self) == *old(self) && r is Nothing,
            },
    {
        if self.phase != SessionPhase::Active {
            return SessionAction::Nothing;
        }
        match ev {
            SessionEvent::Tick { now } => {
                if now > self.last_pong_at && now - self.last_pong_at > self.client_timeout {
                    self.phase = SessionPhase::Closing;
                    SessionAction::Close
                } else {
                    SessionAction::SendPing
                }
            },
            SessionEvent::Ping { body } => SessionAction::SendPong(body),
            SessionEvent::Pong { now } => {
                self.last_pong_at = now;
                SessionAction::Nothing
            },
            SessionEvent::Close | SessionEvent::ReadError | SessionEvent::SendError => {
                self.phase = SessionPhase::Closing;
                SessionAction::Close
            },
            SessionEvent::Other => SessionAction::Nothing,
        }
    }

    /// Ends a closing session: takes it out of the registry and moves to
    /// `Closed`. From then on no event is delivered to it.
    pub fn close(&mut self, state: &mut ServerState, id: usize)
        requires
            old(state).wf(),
        ensures
            final(state).wf(),
            final(self).phase == SessionPhase::Closed,
            final(state).clients@ == old(state).clients@.remove(id),
            forall|e: EventSpec| !#[trigger] final(state).wants(id, e),
    {
        state.remove(id);
        self.phase = SessionPhase::Closed;
    }
}

/// The wait before the pipeline's `attempt`-th restart, in seconds: three
/// seconds more for each attempt.
pub fn restart_delay_secs(attempt: u64) -> (r: u64)
    ensures
        r as int == if 3 * attempt as int > u64::MAX as int { u64::MAX as int } else { 3 * attempt as int },
{
    if attempt > u64::MAX / 3 {
        u64::MAX
    } else {
        attempt * 3
    }
}

} // verus!
