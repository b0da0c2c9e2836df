use vstd::prelude::*;
use crate::errors::ConnectError;
use crate::endpoint::Endpoint;

verus! {

/// Delay before the first redial after a dial failure, in milliseconds.
pub const BACKOFF_BASE_MS: u64 = 1000;

/// Upper bound on the redial delay, in milliseconds. The background
/// redial schedule doubles the delay after each failure but never
/// exceeds this cap, so a recovering endpoint is always retried within
/// a bounded window.
pub const BACKOFF_CAP_MS: u64 = 30000;

/// Health of one transport link. A connection is usable for dispatch
/// only while `Ready`.
#[derive(Clone, Copy, Debug, PartialEq, Eq, Structural)]
pub enum Health {
    /// The first dial has been scheduled but has not finished.
    Connecting,
    /// The link is up; calls may be dispatched on it.
    Ready,
    /// The last dial or call failed for the carried reason; a redial
    /// is scheduled on the backoff timer.
    Failed(ConnectError),
    /// Explicitly shut down; never dialed again.
    Closed,
}

/// The doubled-and-capped successor of a redial delay.
pub open spec fn next_backoff_spec(cur: u64) -> u64 {
    if 2 * cur <= BACKOFF_CAP_MS {
        (2 * cur) as u64
    } else {
        BACKOFF_CAP_MS
    }
}

/// A redial delay is well formed when it lies between the base and the cap.
pub open spec fn backoff_wf(ms: u64) -> bool {
    BACKOFF_BASE_MS <= ms <= BACKOFF_CAP_MS
}

/// Doubles a redial delay, saturating at the cap.
pub fn next_backoff(cur: u64) -> (r: u64)
    requires
        backoff_wf(cur),
    ensures
        r == next_backoff_spec(cur),
        backoff_wf(r),
{
    if cur <= BACKOFF_CAP_MS / 2 {
        2 * cur
    } else {
        BACKOFF_CAP_MS
    }
}

/// However many dial failures accumulate, the redial delay never
/// exceeds the cap, so recovery attempts are never pushed out
/// indefinitely.
pub proof fn lemma_backoff_bounded(cur: u64)
    requires
        backoff_wf(cur),
    ensures
        backoff_wf(next_backoff_spec(cur)),
        next_backoff_spec(cur) <= BACKOFF_CAP_MS,
{
}

/// One slot of the pool: the endpoint it stands for, the health of
/// its transport link, and the delay before its next redial. The link
/// itself lives with the embedding program, which dials, exchanges
/// and sleeps, and reports every outcome here; this type holds every
/// health decision.
#[derive(Debug)]
pub struct Connection {
    pub endpoint: Endpoint,
    pub health: Health,
    pub backoff_ms: u64,
}

impl Connection {
    /// The redial delay stays between base and cap.
    pub open spec fn wf(&self) -> bool {
        backoff_wf(self.backoff_ms)
    }

    /// A fresh slot: dialing has been scheduled but not finished.
    pub fn new(endpoint: Endpoint) -> (r: Connection)
        ensures
            r.endpoint@ == endpoint@,
            r.health == Health::Connecting,
            r.backoff_ms == BACKOFF_BASE_MS,
            r.wf(),
    {
        Connection { endpoint, health: Health::Connecting, backoff_ms: BACKOFF_BASE_MS }
    }

    /// Whether a call may be dispatched on this slot.
    pub fn is_ready(&self) -> (r: bool)
        ensures
            r == (self.health is Ready),
    {
        match self.health {
            Health::Ready => true,
            _ => false,
        }
    }

    /// Whether the embedding program should dial this slot: a fresh
    /// slot, or a failed one whose backoff timer has been waited out.
    pub fn wants_dial(&self) -> (r: bool)
        ensures
            r == (self.health is Connecting || self.health is Failed),
    {
        match self.health {
            Health::Connecting => true,
            Health::Failed(_) => true,
            _ => false,
        }
    }

    /// A dial attempt came back well: the slot becomes ready and its
    /// backoff schedule starts over. A result that arrives after the
    /// slot was closed is discarded (shutdown cancels dialing).
    pub fn on_dial_success(&mut self)
        requires
            old(self).wf(),
        ensures
            final(self).wf(),
            final(self).endpoint@ == old(self).endpoint@,
            old(self).health is Closed ==> *final(self) == *old(self),
            !(old(self).health is Closed) ==> final(self).health == Health::Ready && final(self).backoff_ms
                == BACKOFF_BASE_MS,
    {
        match self.health {
            Health::Closed => {},
            _ => {
                self.health = Health::Ready;
                self.backoff_ms = BACKOFF_BASE_MS;
            },
        }
    }

    /// A dial attempt failed: the slot is marked failed with the
    /// reason and the next redial is pushed out by the doubled,
    /// capped delay. Never fatal to the channel; ignored after close.
    pub fn on_dial_failure(&mut self, reason: ConnectError)
        requires
            old(self).wf(),
        ensures
            final(self).wf(),
            final(self).endpoint@ == old(self).endpoint@,
            old(self).health is Closed ==> *final(self) == *old(self),
            !(old(self).health is Closed) ==> final(self).health == Health::Failed(reason)
                && final(self).backoff_ms == next_backoff_spec(old(self).backoff_ms),
    {
        match self.health {
            Health::Closed => {},
            _ => {
                self.health = Health::Failed(reason);
                self.backoff_ms = next_backoff(self.backoff_ms);
            },
        }
    }

    /// The transport failed under a call in flight: the slot is
    /// marked failed so redial starts, from the base delay again
    /// since the link had been up.
    pub fn on_send_transport_failure(&mut self)
        requires
            old(self).wf(),
        ensures
            final(self).wf(),
            final(self).endpoint@ == old(self).endpoint@,
            final(self).health == Health::Failed(ConnectError::Io),
            final(self).backoff_ms == BACKOFF_BASE_MS,
    {
        self.health = Health::Failed(ConnectError::Io);
        self.backoff_ms = BACKOFF_BASE_MS;
    }

    /// Explicit teardown: the slot is never dialed again.
    pub fn close(&mut self)
        requires
            old(self).wf(),
        ensures
            final(self).wf(),
            final(self).endpoint == old(self).endpoint,
            final(self).health == Health::Closed,
            final(self).backoff_ms == old(self).backoff_ms,
    {
        self.health = Health::Closed;
    }
}

} // verus!
