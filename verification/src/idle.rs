//! The idle timeout of a client session.

use vstd::prelude::*;

verus! {

/// When data last came from either side. Times are milliseconds on one clock.
#[derive(Debug, Clone, Copy, PartialEq, Eq)]
pub struct IdleClock {
    /// How long a silence may last; 0 for as long as it likes.
    pub idle_ms: u64,
    /// When the client last sent something.
    pub client_ms: u64,
    /// When the upstream last sent something, or was connected.
    pub upstream_ms: u64,
}

/// What a silence calls for.
#[derive(Debug, Clone, Copy, PartialEq, Eq)]
pub enum Idle {
    /// There is no limit.
    Unlimited,
    /// Nothing yet: look again after this many milliseconds.
    Wait(u64),
    /// The upstream alone has gone silent: another one should take over.
    Failover,
    /// No data in either direction: the connection should be closed.
    Close,
}

/// How long ago `since` was.
pub open spec fn elapsed(since: u64, now: u64) -> int {
    if now > since {
        now - since
    } else {
        0
    }
}

/// What the silence at time `now` calls for.
pub open spec fn idle_at(clock: IdleClock, now: u64) -> Idle {
    if clock.idle_ms == 0 {
        Idle::Unlimited
    } else if elapsed(clock.upstream_ms, now) < clock.idle_ms {
        Idle::Wait((clock.idle_ms - elapsed(clock.upstream_ms, now)) as u64)
    } else if elapsed(clock.client_ms, now) < clock.idle_ms {
        Idle::Failover
    } else {
        Idle::Close
    }
}

impl IdleClock {
    /// A clock for a session that starts now.
    pub fn new(idle_ms: u64, now: u64) -> (clock: IdleClock)
        ensures
            clock == (IdleClock { idle_ms, client_ms: now, upstream_ms: now }),
    {
        IdleClock { idle_ms, client_ms: now, upstream_ms: now }
    }

    /// The client sent something.
    pub fn client_active(&mut self, now: u64)
        ensures
            *final(self) == (IdleClock { client_ms: now, ..*old(self) }),
    {
        self.client_ms = now;
    }

    /// The upstream sent something, or a new one was connected.
    pub fn upstream_active(&mut self, now: u64)
        ensures
            *final(self) == (IdleClock { upstream_ms: now, ..*old(self) }),
    {
        self.upstream_ms = now;
    }

    /// What the silence at time `now` calls for.
    pub fn check(&self, now: u64) -> (idle: Idle)
        ensures
            idle == idle_at(*self, now),
    {
        if self.idle_ms == 0 {
            return Idle::Unlimited;
        }
        let upstream: u64 = now.saturating_sub(self.upstream_ms);
        if upstream < self.idle_ms {
            return Idle::Wait(self.idle_ms - upstream);
        }
        let client: u64 = now.saturating_sub(self.client_ms);
        if client < self.idle_ms {
            Idle::Failover
        } else {
            Idle::Close
        }
    }
}

/// A connection is closed for idleness exactly where a limit is set and no data came in
/// either direction for that long.
pub proof fn law_close_only_when_both_idle(clock: IdleClock, now: u64)
    ensures
        idle_at(clock, now) is Close <==> clock.idle_ms > 0 && elapsed(clock.client_ms, now)
            >= clock.idle_ms && elapsed(clock.upstream_ms, now) >= clock.idle_ms,
{
}

/// Waiting as long as the clock says, with nothing from the upstream meanwhile, brings
/// the limit about.
pub proof fn law_wait_is_long_enough(clock: IdleClock, now: u64, wait: u64)
    requires
        idle_at(clock, now) == Idle::Wait(wait),
        now + wait <= u64::MAX,
        clock.upstream_ms <= now,
    ensures
        idle_at(clock, (now + wait) as u64) is Failover || idle_at(
            clock,
            (now + wait) as u64,
        ) is Close,
{
}

/// What a silence calls for, by how long either side has said nothing. Without a limit it
/// calls for nothing. While the upstream has said something within the limit, the clock is
/// looked at again when the limit is reached. Behind it, another upstream takes over if the
/// client has said something within the limit; otherwise the connection is closed.
pub proof fn law_silence(clock: IdleClock, now: u64)
    requires
        clock.client_ms <= now,
        clock.upstream_ms <= now,
    ensures
        idle_at(clock, now) == if clock.idle_ms == 0 {
            Idle::Unlimited
        } else if now < clock.upstream_ms + clock.idle_ms {
            Idle::Wait((clock.upstream_ms + clock.idle_ms - now) as u64)
        } else if now < clock.client_ms + clock.idle_ms {
            Idle::Failover
        } else {
            Idle::Close
        },
{
}

/// A side that is said to have spoken later than now counts as having spoken just now.
pub proof fn law_future_is_now(clock: IdleClock, now: u64)
    ensures
        clock.upstream_ms > now ==> idle_at(clock, now) == idle_at(
            IdleClock { upstream_ms: now, ..clock },
            now,
        ),
        clock.client_ms > now ==> idle_at(clock, now) == idle_at(
            IdleClock { client_ms: now, ..clock },
            now,
        ),
{
}

} // verus!
