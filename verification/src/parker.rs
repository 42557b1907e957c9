//! The place where the receiver registers before it goes to sleep.

use vstd::prelude::*;

verus! {

/// Where the receiving thread stands.
#[derive(PartialEq, Eq, Structural, Clone, Copy, Debug)]
pub enum ParkState {
    /// Nobody sleeps, and nobody has been notified.
    Empty,
    /// The receiver sleeps, or is about to.
    Parked,
    /// A notification has arrived that the receiver has not seen yet.
    Notified,
    /// The receiver is never to sleep again.
    Closed,
}

/// How a timed park ended.
#[derive(PartialEq, Eq, Debug)]
pub enum TryParkResult<D> {
    /// A notification was there before the thread could sleep. The time was not used.
    Interrupted(D),
    /// The thread slept and was notified.
    Unparked,
    /// The time ran out before a notification came.
    Timeout,
}

/// The notification state between the senders and the one thread that receives.
///
/// Sleeping and waking are done by whoever owns the thread. The parker decides when: `park`
/// says whether to sleep, and `wake` is set when the sleeping thread has to be woken.
#[derive(PartialEq, Eq, Structural, Clone, Copy, Debug)]
pub struct Parker {
    pub state: ParkState,
    pub wake: bool,
}

/// The parker after a notification.
pub open spec fn unparked(parker: Parker) -> Parker {
    match parker.state {
        ParkState::Empty => Parker { state: ParkState::Notified, ..parker },
        ParkState::Parked => Parker { state: ParkState::Notified, wake: true },
        ParkState::Notified => parker,
        ParkState::Closed => parker,
    }
}

/// The parker after the receiver has asked to sleep.
pub open spec fn parked(parker: Parker) -> Parker {
    match parker.state {
        ParkState::Empty => Parker { state: ParkState::Parked, ..parker },
        ParkState::Notified => Parker { state: ParkState::Empty, ..parker },
        _ => parker,
    }
}

/// The parker after the receiver has stopped sleeping.
pub open spec fn resumed(parker: Parker) -> Parker {
    match parker.state {
        ParkState::Closed => parker,
        _ => Parker { state: ParkState::Empty, ..parker },
    }
}

/// How a sleep ended that ends now: a notification counts even where it came after the time ran
/// out.
pub open spec fn outcome<D>(parker: Parker) -> TryParkResult<D> {
    if parker.state == ParkState::Notified || parker.state == ParkState::Closed {
        TryParkResult::Unparked
    } else {
        TryParkResult::Timeout
    }
}

/// The parker after it has been shut down.
pub open spec fn shut(parker: Parker) -> Parker {
    Parker {
        state: ParkState::Closed,
        wake: parker.wake || parker.state == ParkState::Parked,
    }
}

/// The parker after the request to wake the receiver has been taken.
pub open spec fn answered(parker: Parker) -> Parker {
    Parker { wake: false, ..parker }
}

impl Parker {
    /// A parker that nobody has used yet.
    pub fn new() -> (parker: Parker)
        ensures
            parker == (Parker { state: ParkState::Empty, wake: false }),
    {
        Parker { state: ParkState::Empty, wake: false }
    }

    /// Asks to put the receiving thread to sleep until the next notification. Says whether the
    /// thread is to sleep; if it is, `resume` follows when it has been woken.
    pub fn park(&mut self) -> (sleep: bool)
        ensures
            sleep == (parked(*old(self)).state == ParkState::Parked),
            *final(self) == parked(*old(self)),
    {
        match self.state {
            ParkState::Empty => {
                self.state = ParkState::Parked;
                true
            },
            ParkState::Parked => true,
            ParkState::Notified => {
                self.state = ParkState::Empty;
                false
            },
            ParkState::Closed => false,
        }
    }

    /// As `park`, for at most `timeout`. `Err(timeout)` says that the thread is to sleep that
    /// long and then to call `resume`.
    pub fn try_park_for<D>(&mut self, timeout: D) -> (res: Result<TryParkResult<D>, D>)
        ensures
            res == (if parked(*old(self)).state == ParkState::Parked {
                Err::<TryParkResult<D>, D>(timeout)
            } else {
                Ok(TryParkResult::Interrupted(timeout))
            }),
            *final(self) == parked(*old(self)),
    {
        if self.park() {
            Err(timeout)
        } else {
            Ok(TryParkResult::Interrupted(timeout))
        }
    }

    /// Ends the sleep of the receiving thread, and says how it ended.
    pub fn resume<D>(&mut self) -> (res: TryParkResult<D>)
        ensures
            res == outcome::<D>(*old(self)),
            *final(self) == resumed(*old(self)),
    {
        match self.state {
            ParkState::Notified => {
                self.state = ParkState::Empty;
                TryParkResult::Unparked
            },
            ParkState::Closed => TryParkResult::Unparked,
            _ => {
                self.state = ParkState::Empty;
                TryParkResult::Timeout
            },
        }
    }

    /// Notifies the receiver: the thread that sleeps is to be woken, or the next `park` does not
    /// sleep.
    pub fn unpark(&mut self)
        ensures
            *final(self) == unparked(*old(self)),
    {
        match self.state {
            ParkState::Empty => {
                self.state = ParkState::Notified;
            },
            ParkState::Parked => {
                self.wake = true;
                self.state = ParkState::Notified;
            },
            _ => {},
        }
    }

    /// Wakes the receiver and keeps it from ever sleeping again.
    pub fn shutdown(&mut self)
        ensures
            final(self).state == ParkState::Closed,
            final(self).wake == (old(self).wake || old(self).state == ParkState::Parked),
            *final(self) == shut(*old(self)),
    {
        if self.state == ParkState::Parked {
            self.wake = true;
        }
        self.state = ParkState::Closed;
    }

    /// Says whether a sleeping thread has to be woken, and takes that request.
    pub fn take_wake(&mut self) -> (wake: bool)
        ensures
            wake == old(self).wake,
            *final(self) == (Parker { state: old(self).state, wake: false }),
            *final(self) == answered(*old(self)),
    {
        let wake = self.wake;
        self.wake = false;
        wake
    }
}

/// A notification is kept until the receiver sees it, unless it is never to sleep again. It asks
/// for the receiver to be woken exactly where it sleeps, and takes back no such request. A second
/// notification adds nothing.
pub proof fn law_unpark(parker: Parker)
    ensures
        parker.state == ParkState::Closed ==> unparked(parker) == parker,
        parker.state != ParkState::Closed ==> unparked(parker).state == ParkState::Notified,
        unparked(parker).wake <==> parker.wake || parker.state == ParkState::Parked,
        unparked(unparked(parker)) == unparked(parker),
{
}

/// A receiver that asks to sleep is to sleep exactly where no notification is there and it may
/// sleep at all. A notification that is there is used up, so that it keeps the receiver awake once
/// only. Asking takes back no request to wake.
pub proof fn law_park(parker: Parker)
    ensures
        parked(parker).state == ParkState::Parked <==> parker.state == ParkState::Empty
            || parker.state == ParkState::Parked,
        parker.state == ParkState::Notified ==> parked(parker).state == ParkState::Empty,
        parker.state == ParkState::Notified ==> parked(parked(parker)).state == ParkState::Parked,
        parker.state == ParkState::Closed ==> parked(parker).state == ParkState::Closed,
        parked(parker).wake == parker.wake,
{
}

/// When a sleep ends, every notification so far has been seen. It ended by a notification exactly
/// where there was one, or where the receiver is never to sleep again; otherwise the time ran out.
pub proof fn law_resume<D>(parker: Parker)
    ensures
        parker.state == ParkState::Closed ==> resumed(parker).state == ParkState::Closed,
        parker.state != ParkState::Closed ==> resumed(parker).state == ParkState::Empty,
        resumed(parker).wake == parker.wake,
        outcome::<D>(parker) == TryParkResult::<D>::Unparked <==> parker.state
            == ParkState::Notified || parker.state == ParkState::Closed,
        outcome::<D>(parker) == TryParkResult::<D>::Timeout <==> parker.state == ParkState::Empty
            || parker.state == ParkState::Parked,
{
}

/// A parker that has been shut down has a sleeping receiver woken, and keeps it from sleeping
/// whatever happens afterwards.
pub proof fn law_shutdown(parker: Parker)
    ensures
        shut(parker).wake <==> parker.wake || parker.state == ParkState::Parked,
        parked(shut(parker)) == shut(parker),
        unparked(shut(parker)) == shut(parker),
        resumed(shut(parker)) == shut(parker),
        shut(parker).state != ParkState::Parked,
{
}

/// A request to wake the receiver is there once: when it has been taken, there is none until the
/// next notification that finds the receiver asleep. Nothing else changes by it.
pub proof fn law_request_taken(parker: Parker)
    ensures
        !answered(parker).wake,
        answered(parker).state == parker.state,
        unparked(answered(parker)).wake <==> parker.state == ParkState::Parked,
{
}

/// A notification that comes before the receiver asks to sleep keeps it awake.
pub proof fn law_notified_first(parker: Parker)
    ensures
        parked(unparked(parker)).state != ParkState::Parked,
{
}

/// A notification that comes while the receiver sleeps has it woken, and the sleep counts as
/// ended by a notification.
pub proof fn law_notified_asleep<D>(parker: Parker)
    requires
        parked(parker).state == ParkState::Parked,
    ensures
        unparked(parked(parker)).wake,
        outcome::<D>(unparked(parked(parker))) == TryParkResult::<D>::Unparked,
{
}

} // verus!
