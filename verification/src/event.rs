//! How a thread sleeps until another one wakes it.

use vstd::prelude::*;

verus! {

/// Something that one thread waits for and one other thread sets.
///
/// The thread that makes an event is the one that waits for it. `wait` returns only once `set`
/// has been called, before or after `wait` was.
pub trait Event: Sized + Sync {
    /// Makes an event and hands it to `f`.
    fn with<F: FnOnce(&Self)>(f: F)
        requires
            forall|event: &Self| #[trigger] f.requires((event,)),
    ;

    /// Blocks the thread until `set` has been called.
    fn wait(&self);

    /// Wakes the thread that waits, or lets it through when it comes to wait.
    fn set(&self);
}

/// An event that can be waited for with a time limit.
pub trait TimedEvent: Event {
    /// How long to wait at most.
    type Duration;

    /// Blocks the thread until `set` has been called or the time has run out. Says whether `set`
    /// has been called.
    fn try_wait_for(&self, timeout: Self::Duration) -> bool;
}

/// What a thread that waits with a time limit does next.
#[derive(PartialEq, Eq, Structural, Clone, Copy, Debug)]
pub enum WaitAction {
    /// The event has been set.
    Woken,
    /// The time has run out.
    TimedOut,
    /// Sleep for so many nanoseconds, then look again.
    Sleep(u128),
}

/// A wait with a time limit, in nanoseconds.
#[derive(Clone, Copy, Debug)]
pub struct TimedWait {
    pub timeout: u128,
    pub started: Option<u128>,
}

impl TimedWait {
    /// A wait that has not begun.
    pub open spec fn unbegun(timeout: u128) -> TimedWait {
        TimedWait { timeout, started: None }
    }

    /// A wait that has not begun.
    pub fn new(timeout: u128) -> (wait: TimedWait)
        ensures
            wait.timeout == timeout,
            wait.started is None,
            wait == Self::unbegun(timeout),
    {
        TimedWait { timeout, started: None }
    }

    /// When the wait began, if it is `now`. The clock starts when the event is first found not
    /// to be set.
    pub open spec fn start(self, now: u128) -> u128 {
        match self.started {
            Some(start) => start,
            None => now,
        }
    }

    /// How long the wait has taken, if it is `now`; nothing where the clock went backwards.
    pub open spec fn elapsed(self, now: u128) -> int {
        if now > self.start(now) {
            now - self.start(now)
        } else {
            0
        }
    }

    /// How much of the time is left, if it is `now`; nothing where it has run out.
    pub open spec fn remaining(self, now: u128) -> Option<u128> {
        if self.elapsed(now) <= self.timeout {
            Some((self.timeout - self.elapsed(now)) as u128)
        } else {
            None
        }
    }

    /// What to do, from whether the event has been set and from the time.
    pub open spec fn decision(self, unparked: bool, now: u128) -> WaitAction {
        if unparked {
            WaitAction::Woken
        } else {
            match self.remaining(now) {
                Some(left) => WaitAction::Sleep(left),
                None => WaitAction::TimedOut,
            }
        }
    }

    /// The wait after a look at the event.
    pub open spec fn looked(self, unparked: bool, now: u128) -> TimedWait {
        if unparked {
            self
        } else {
            TimedWait { timeout: self.timeout, started: Some(self.start(now)) }
        }
    }

    /// How much of the time is left, if it is `now`; nothing where it has run out.
    pub fn left(&self, now: u128) -> (left: Option<u128>)
        ensures
            left == (if self.elapsed(now) <= self.timeout {
                Some((self.timeout - self.elapsed(now)) as u128)
            } else {
                None
            }),
            left == self.remaining(now),
            self.started matches Some(start) ==> now >= start ==> {
                &&& left is None <==> now - start > self.timeout
                &&& left matches Some(time) ==> time + (now - start) == self.timeout
            },
    {
        let start: u128 = match self.started {
            Some(start) => start,
            None => now,
        };
        let elapsed: u128 = if now > start {
            now - start
        } else {
            0
        };
        self.timeout.checked_sub(elapsed)
    }

    /// Decides what to do, from whether the event has been set and from the time.
    pub fn step(&mut self, unparked: bool, now: u128) -> (action: WaitAction)
        ensures
            final(self).timeout == old(self).timeout,
            unparked ==> action == WaitAction::Woken && *final(self) == *old(self),
            !unparked ==> {
                &&& final(self).started == Some(old(self).start(now))
                &&& action == (if old(self).elapsed(now) <= old(self).timeout {
                    WaitAction::Sleep((old(self).timeout - old(self).elapsed(now)) as u128)
                } else {
                    WaitAction::TimedOut
                })
            },
            action == old(self).decision(unparked, now),
            *final(self) == old(self).looked(unparked, now),
            !unparked ==> (old(self).started matches Some(start) ==> now >= start ==> {
                &&& action == WaitAction::TimedOut <==> now - start > old(self).timeout
                &&& action matches WaitAction::Sleep(time) ==> time + (now - start)
                    == old(self).timeout
            }),
    {
        if unparked {
            return WaitAction::Woken;
        }
        if self.started.is_none() {
            self.started = Some(now);
        }
        match self.left(now) {
            Some(left) => WaitAction::Sleep(left),
            None => WaitAction::TimedOut,
        }
    }
}

/// A wait that began at `start`, looked at no earlier than that, has timed out exactly when more
/// than its time has gone by since then. Otherwise it sleeps for what makes up its time together
/// with what has gone by.
pub proof fn law_time_runs_out(wait: TimedWait, start: u128, now: u128)
    requires
        wait.started == Some(start),
        start <= now,
    ensures
        wait.decision(false, now) == WaitAction::TimedOut <==> now > start + wait.timeout,
        now <= start + wait.timeout ==> wait.decision(false, now) == WaitAction::Sleep(
            (start + wait.timeout - now) as u128,
        ),
        wait.remaining(now) is None <==> now > start + wait.timeout,
        now <= start + wait.timeout ==> wait.remaining(now) == Some(
            (start + wait.timeout - now) as u128,
        ),
        wait.looked(false, now) == wait,
{
}

/// A wait begins when the event is first found not to be set, with all of its time before it; it
/// also has all of it where the clock went backwards. An event that has been set ends the wait
/// whatever the time, and changes nothing.
pub proof fn law_time_begins(wait: TimedWait, now: u128)
    ensures
        wait.started is None ==> {
            &&& wait.decision(false, now) == WaitAction::Sleep(wait.timeout)
            &&& wait.looked(false, now).started == Some(now)
        },
        wait.started matches Some(start) ==> now <= start ==> wait.decision(false, now)
            == WaitAction::Sleep(wait.timeout),
        wait.started is Some ==> wait.looked(false, now).started == wait.started,
        wait.looked(false, now).timeout == wait.timeout,
        wait.decision(true, now) == WaitAction::Woken,
        wait.looked(true, now) == wait,
{
}

/// A wait for `timeout` that first finds the event not set at `first` sleeps for all of that time,
/// and at every time that is later by more than that it has timed out.
pub proof fn law_whole_wait(timeout: u128, first: u128, now: u128)
    ensures
        TimedWait::unbegun(timeout).decision(false, first) == WaitAction::Sleep(timeout),
        now > first + timeout ==> TimedWait::unbegun(timeout).looked(false, first).decision(
            false,
            now,
        ) == WaitAction::TimedOut,
        first <= now <= first + timeout ==> TimedWait::unbegun(timeout).looked(
            false,
            first,
        ).decision(false, now) == WaitAction::Sleep((first + timeout - now) as u128),
{
}

/// Two looks at one wait: time that has gone by between them is time less to sleep, and a wait
/// that has timed out stays so.
pub proof fn law_two_looks(wait: TimedWait, first: u128, second: u128)
    requires
        wait.started is None,
        first <= second,
    ensures
        ({
            let begun = wait.looked(false, first);
            match begun.decision(false, second) {
                WaitAction::Sleep(left) => left + (second - first) == wait.timeout,
                WaitAction::TimedOut => second - first > wait.timeout,
                WaitAction::Woken => false,
            }
        }),
{
}

} // verus!
