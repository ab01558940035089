//! Counting calls that have entered a script and not yet left it.

use vstd::prelude::*;

verus! {

/// The number of calls under way.
#[derive(Clone, Copy, Debug, PartialEq, Eq, Structural)]
pub struct InFlight {
    pub count: usize,
}

/// What follows from waiting for calls to end.
#[derive(Clone, Copy, Debug, PartialEq, Eq, Structural)]
pub enum WaitPoll {
    Idle,
    TimedOut,
    /// Wait for the given time at most, then look again.
    Wait { remaining: u64 },
}

impl InFlight {
    pub fn new() -> (calls: InFlight)
        ensures
            calls.count == 0,
    {
        InFlight { count: 0 }
    }

    /// Notes that a call has begun.
    pub fn enter(&mut self)
        requires
            old(self).count < usize::MAX,
        ensures
            final(self).count == old(self).count + 1,
    {
        self.count = self.count + 1;
    }

    /// Notes that a call has ended. The result says whether those who wait for the
    /// calls to end have to be woken.
    pub fn leave(&mut self) -> (idle: bool)
        ensures
            final(self).count == if old(self).count == 0 {
                0
            } else {
                old(self).count - 1
            },
            idle == (final(self).count == 0),
    {
        self.count = self.count.saturating_sub(1);
        self.count == 0
    }

    /// What to do while waiting for all calls to end; times are on one clock.
    pub fn poll(&self, elapsed: u64, timeout: u64) -> (poll: WaitPoll)
        ensures
            poll == if self.count == 0 {
                WaitPoll::Idle
            } else if elapsed >= timeout {
                WaitPoll::TimedOut
            } else {
                WaitPoll::Wait { remaining: (timeout - elapsed) as u64 }
            },
    {
        if self.count == 0 {
            WaitPoll::Idle
        } else if elapsed >= timeout {
            WaitPoll::TimedOut
        } else {
            WaitPoll::Wait { remaining: timeout - elapsed }
        }
    }
}

} // verus!
