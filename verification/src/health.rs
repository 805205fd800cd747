//! Per-session connection-health bookkeeping.
//!
//! Each session in the pool carries one [`ConnectionHealth`] record. Activity
//! resets the failure counter; unattributed traffic marks a failure on every
//! record; a periodic pass triggers at most a bounded number of recovery
//! attempts per session. All instants are milliseconds on the caller's
//! monotone clock.

use vstd::prelude::*;

verus! {

/// Milliseconds of idleness after which a session counts as degraded.
pub const IDLE_THRESHOLD_MS: u64 = 10_000;

/// Consecutive failures beyond which recovery may be attempted.
pub const FAILURE_THRESHOLD: u32 = 3;

/// Recovery attempts are abandoned once this many have been made.
pub const MAX_RESTART_ATTEMPTS: u32 = 3;

/// Tracks connection health for one session.
#[derive(Debug, Clone, Copy, PartialEq, Eq, Structural)]
pub struct ConnectionHealth {
    /// Instant (ms) of the last traffic attributed to this session.
    pub last_activity: u64,
    /// Failures seen since the last activity.
    pub consecutive_failures: u32,
    /// Recovery attempts made so far.
    pub ice_restart_attempts: u32,
}

/// How long the record has been idle at `now`, zero if `now` precedes the
/// last recorded activity.
pub open spec fn idle_ms(h: ConnectionHealth, now: u64) -> int {
    if now >= h.last_activity {
        now - h.last_activity
    } else {
        0
    }
}

/// A recovery attempt is due exactly when the session has been idle beyond
/// the threshold, has accumulated more than the tolerated failures, and has
/// not yet used up its recovery attempts.
pub open spec fn recovery_due(h: ConnectionHealth, now: u64) -> bool {
    &&& idle_ms(h, now) > IDLE_THRESHOLD_MS
    &&& h.consecutive_failures > FAILURE_THRESHOLD
    &&& h.ice_restart_attempts < MAX_RESTART_ATTEMPTS
}

impl ConnectionHealth {
    /// A fresh record: just active, no failures, no recovery attempts.
    pub fn new(now: u64) -> (h: ConnectionHealth)
        ensures
            h.last_activity == now,
            h.consecutive_failures == 0,
            h.ice_restart_attempts == 0,
            !recovery_due(h, now),
    {
        ConnectionHealth { last_activity: now, consecutive_failures: 0, ice_restart_attempts: 0 }
    }

    /// Traffic was attributed to the session: refresh the activity instant
    /// and forget accumulated failures.
    pub fn mark_activity(&mut self, now: u64)
        ensures
            final(self).last_activity == now,
            final(self).consecutive_failures == 0,
            final(self).ice_restart_attempts == old(self).ice_restart_attempts,
    {
        self.last_activity = now;
        self.consecutive_failures = 0;
    }

    /// A failure signal (e.g. an inbound datagram that no session accepted):
    /// count it, saturating at the counter's maximum.
    pub fn mark_failure(&mut self)
        ensures
            final(self).consecutive_failures == if old(self).consecutive_failures < u32::MAX {
                old(self).consecutive_failures + 1
            } else {
                u32::MAX as int
            },
            final(self).last_activity == old(self).last_activity,
            final(self).ice_restart_attempts == old(self).ice_restart_attempts,
    {
        if self.consecutive_failures < u32::MAX {
            self.consecutive_failures = self.consecutive_failures + 1;
        }
    }

    /// Whether a recovery attempt is due at `now`.
    pub fn should_attempt_recovery(&self, now: u64) -> (r: bool)
        ensures
            r == recovery_due(*self, now),
    {
        let idle: u64 = if now >= self.last_activity {
            now - self.last_activity
        } else {
            0
        };
        idle > IDLE_THRESHOLD_MS && self.consecutive_failures > FAILURE_THRESHOLD
            && self.ice_restart_attempts < MAX_RESTART_ATTEMPTS
    }

    /// Record the start of one recovery attempt: spend one attempt and give
    /// the session a clean failure slate.
    pub fn begin_recovery(&mut self)
        requires
            old(self).ice_restart_attempts < MAX_RESTART_ATTEMPTS,
        ensures
            final(self).ice_restart_attempts == old(self).ice_restart_attempts + 1,
            final(self).consecutive_failures == 0,
            final(self).last_activity == old(self).last_activity,
    {
        self.ice_restart_attempts = self.ice_restart_attempts + 1;
        self.consecutive_failures = 0;
    }
}

} // verus!
