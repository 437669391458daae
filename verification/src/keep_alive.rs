//! The keep-alive timer.
//!
//! Time is a count of ticks of whatever clock the caller reads; interval
//! and instants are given in the same unit.
use vstd::prelude::*;

use crate::Error;

verus! {

#[derive(Clone, Copy, Debug)]
pub struct KeepAlive {
    keep_alive: u64,
    half_keep_alive: u64,
    last_activity: u64,
    ping_outstanding: bool,
    enabled: bool,
}

/// The time from `last` to `now`, if the clock has not gone backwards.
pub open spec fn elapsed_between(last: u64, now: u64) -> Result<u64, Error> {
    if now >= last {
        Ok((now - last) as u64)
    } else {
        Err(Error::TimeError)
    }
}

impl KeepAlive {
    /// The keep-alive interval; zero switches the timer off.
    pub closed spec fn interval(&self) -> u64 {
        self.keep_alive
    }

    /// When something was last sent or received.
    pub closed spec fn last_activity(&self) -> u64 {
        self.last_activity
    }

    /// A ping has been asked for and nothing has been received since.
    pub closed spec fn ping_outstanding(&self) -> bool {
        self.ping_outstanding
    }

    pub closed spec fn wf(&self) -> bool {
        &&& self.half_keep_alive == self.keep_alive / 2
        &&& self.enabled == (self.keep_alive != 0)
    }

    pub open spec fn enabled(&self) -> bool {
        self.interval() != 0
    }

    /// A ping is due at `now`: the timer runs, none is outstanding, and half
    /// the interval has passed since the last activity.
    pub open spec fn ping_due(&self, now: u64) -> Result<bool, Error> {
        if !self.enabled() || self.ping_outstanding() {
            Ok(false)
        } else {
            match elapsed_between(self.last_activity(), now) {
                Ok(elapsed) => Ok(elapsed >= self.interval() / 2),
                Err(e) => Err(e),
            }
        }
    }

    /// The peer has been silent too long at `now`: the timer runs, a ping
    /// is outstanding, and the whole interval has passed since the last
    /// activity.
    pub open spec fn expired(&self, now: u64) -> Result<bool, Error> {
        if !self.enabled() || !self.ping_outstanding() {
            Ok(false)
        } else {
            match elapsed_between(self.last_activity(), now) {
                Ok(elapsed) => Ok(elapsed >= self.interval()),
                Err(e) => Err(e),
            }
        }
    }

    /// A timer with the given interval whose last activity is `now`.
    pub fn new(now: u64, keep_alive: u64) -> (r: Self)
        ensures
            r.wf(),
            r.interval() == keep_alive,
            r.last_activity() == now,
            !r.ping_outstanding(),
    {
        KeepAlive {
            keep_alive,
            half_keep_alive: keep_alive / 2,
            last_activity: now,
            ping_outstanding: false,
            enabled: keep_alive != 0,
        }
    }

    /// When something was last sent or received.
    pub fn last_activity_at(&self) -> (r: u64)
        ensures
            r == self.last_activity(),
    {
        self.last_activity
    }

    /// Whether a ping has been asked for and nothing has been received since.
    pub fn is_ping_outstanding(&self) -> (r: bool)
        ensures
            r == self.ping_outstanding(),
    {
        self.ping_outstanding
    }

    /// Notes that something was sent at `now`.
    pub fn on_send(&mut self, now: u64)
        requires
            old(self).wf(),
        ensures
            final(self).wf(),
            final(self).interval() == old(self).interval(),
            final(self).last_activity() == now,
            final(self).ping_outstanding() == old(self).ping_outstanding(),
    {
        self.last_activity = now;
    }

    /// Notes that something was received at `now`; a ping is no longer
    /// outstanding.
    pub fn on_receive(&mut self, now: u64)
        requires
            old(self).wf(),
        ensures
            final(self).wf(),
            final(self).interval() == old(self).interval(),
            final(self).last_activity() == now,
            !final(self).ping_outstanding(),
    {
        self.last_activity = now;
        self.ping_outstanding = false;
    }

    /// Notes activity at `now` without touching the outstanding ping.
    pub fn update(&mut self, now: u64)
        requires
            old(self).wf(),
        ensures
            final(self).wf(),
            final(self).interval() == old(self).interval(),
            final(self).last_activity() == now,
            final(self).ping_outstanding() == old(self).ping_outstanding(),
    {
        self.last_activity = now;
    }

    /// Whether a ping is due at `now`. Saying yes marks the ping as
    /// outstanding, so that the question is answered with yes once.
    pub fn should_ping(&mut self, now: u64) -> (r: Result<bool, Error>)
        requires
            old(self).wf(),
        ensures
            r == old(self).ping_due(now),
            final(self).wf(),
            final(self).interval() == old(self).interval(),
            final(self).last_activity() == old(self).last_activity(),
            final(self).ping_outstanding() == (old(self).ping_outstanding() || r == Ok::<
                bool,
                Error,
            >(true)),
            r != Ok::<bool, Error>(true) ==> *final(self) == *old(self),
    {
        if !self.enabled || self.ping_outstanding {
            return Ok(false);
        }
        if self.elapsed(now)? >= self.half_keep_alive {
            self.ping_outstanding = true;
            Ok(true)
        } else {
            Ok(false)
        }
    }

    /// Whether the peer has been silent too long at `now`.
    pub fn timed_out(&self, now: u64) -> (r: Result<bool, Error>)
        requires
            self.wf(),
        ensures
            r == self.expired(now),
    {
        if !self.enabled || !self.ping_outstanding {
            return Ok(false);
        }
        Ok(self.elapsed(now)? >= self.keep_alive)
    }

    /// The time since the last activity; `TimeError` when `now` lies
    /// before it.
    pub fn elapsed(&self, now: u64) -> (r: Result<u64, Error>)
        ensures
            r == elapsed_between(self.last_activity(), now),
    {
        if now < self.last_activity {
            return Err(Error::TimeError);
        }
        Ok(now - self.last_activity)
    }
}

/// With an interval `d` above zero: after half of `d` without activity a
/// ping is due; once it is outstanding, after the whole of `d` without
/// activity the peer has timed out; and a receipt leaves no ping
/// outstanding and, at its own instant, nothing timed out.
pub proof fn lemma_keep_alive(idle: KeepAlive, pinged: KeepAlive, heard: KeepAlive, now: u64)
    requires
        idle.enabled(),
        !idle.ping_outstanding(),
        now - idle.last_activity() >= idle.interval() / 2,
        pinged.enabled(),
        pinged.ping_outstanding(),
        now - pinged.last_activity() >= pinged.interval(),
        heard.enabled(),
        !heard.ping_outstanding(),
        heard.last_activity() == now,
    ensures
        idle.ping_due(now) == Ok::<bool, Error>(true),
        pinged.expired(now) == Ok::<bool, Error>(true),
        heard.expired(now) == Ok::<bool, Error>(false),
        heard.interval() >= 2 ==> heard.ping_due(now) == Ok::<bool, Error>(false),
{
}

} // verus!
