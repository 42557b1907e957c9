//! The two halves of a channel.
//!
//! The halves do not hold the queue. Whoever owns a channel keeps its [`Shared`] part behind a
//! lock of their choice, and lends it to a half for each operation.

use crate::error::{RecvError, RecvTimeoutError, SendError, TryRecvError};
use crate::event::{Event, TimedEvent};
use crate::parker::TryParkResult;
use crate::queue::{Queue, SendOp};
use crate::state::{QueueState, Signal};
use crate::wait::{RecvRound, TimedRound, TimedWaiting, Waiting};
use core::marker::PhantomData;
use vstd::prelude::*;

verus! {

/// What the halves of a channel share: the queue, and the number of senders that use it.
pub struct Shared<T> {
    queue: Queue<T>,
    senders: usize,
    id: Ghost<int>,
}

impl<T> Shared<T> {
    /// The memory of the queue.
    pub closed spec fn view(&self) -> QueueState<T> {
        self.queue@
    }

    /// How many senders there are.
    pub closed spec fn senders(&self) -> int {
        self.senders as int
    }

    /// Which channel this is. All that is known of it is that the halves of the channel have the
    /// same.
    pub closed spec fn id(&self) -> int {
        self.id@
    }

    /// The queue is in the form that `view` reads.
    pub closed spec fn repr(&self) -> bool {
        self.queue.repr()
    }

    /// How many halves there are: the senders, and the receiver until it hangs up.
    pub open spec fn handles(&self) -> int {
        self.senders() + (if self@.tail is Some {
            1int
        } else {
            0
        })
    }

    /// What holds of a channel at all times: it is closed only when there is no sender left, and
    /// as long as there is a receiver, it is closed exactly then.
    pub open spec fn wf(&self) -> bool {
        &&& self.repr()
        &&& self@.wf()
        &&& self.senders() >= 0
        &&& self@.closed ==> self.senders() == 0
        &&& self@.tail is Some ==> (self@.closed <==> self.senders() == 0)
    }

    /// Whether the channel is still in order and has the same halves.
    pub open spec fn same_halves(before: Shared<T>, after: Shared<T>) -> bool {
        &&& after.wf()
        &&& after.senders() == before.senders()
        &&& after.handles() == before.handles()
        &&& after.id() == before.id()
    }

    /// Whether the channel has got one more sender, and nothing else has changed.
    pub open spec fn sender_cloned(before: Shared<T>, after: Shared<T>) -> bool {
        &&& after.wf()
        &&& after.id() == before.id()
        &&& after@ == before@
        &&& after.handles() == before.handles() + 1
        &&& after.senders() == before.senders() + 1
    }

    /// Whether the channel has one sender less: with the last one the channel is closed, and the
    /// receiver is notified, if there is still a receiver to tell.
    pub open spec fn sender_dropped(before: Shared<T>, after: Shared<T>) -> bool {
        &&& after.wf()
        &&& after.id() == before.id()
        &&& after.handles() == before.handles() - 1
        &&& after.senders() == before.senders() - 1
        &&& after@ == (if before.senders() == 1 && before@.tail is Some {
            before@.with_hang_up(true)
        } else {
            before@
        })
    }

    /// Whether the receiver of the channel has hung up.
    pub open spec fn receiver_dropped(before: Shared<T>, after: Shared<T>) -> bool {
        &&& after.wf()
        &&& after.id() == before.id()
        &&& after.handles() == before.handles() - 1
        &&& after.senders() == before.senders()
        &&& after@ == before@.with_hang_up(false)
    }

    /// Takes the channel down when both halves are gone, and hands out the messages that are
    /// left, oldest first.
    pub fn drop(self) -> (left: Vec<T>)
        requires
            self.wf(),
            self.handles() == 0,
        ensures
            left@ == self@.left(),
    {
        self.queue.drop()
    }

    /// Whether there is room for one more send.
    pub fn has_room(&self) -> (room: bool)
        requires
            self.wf(),
        ensures
            room == self@.has_room(),
    {
        self.queue.has_room()
    }

    /// Says whether the sleeping receiver has to be woken, and takes that request.
    pub fn take_wake(&mut self) -> (wake: bool)
        requires
            old(self).wf(),
        ensures
            Shared::same_halves(*old(self), *final(self)),
            wake == old(self)@.parker.wake,
            final(self)@ == (QueueState {
                parker: crate::parker::Parker { wake: false, ..old(self)@.parker },
                ..old(self)@
            }),
    {
        self.queue.take_wake()
    }
}

/// The sending half of a channel. There can be many of them.
pub struct RawSender<T> {
    message: PhantomData<T>,
    id: Ghost<int>,
}

/// The receiving half of a channel, for a thread that sleeps on events of type `E`. There is one
/// only.
pub struct RawReceiver<E, T> {
    event: PhantomData<E>,
    message: PhantomData<T>,
    id: Ghost<int>,
}

/// Creates a channel with one sender and its receiver.
pub fn raw_channel<E, T>() -> (channel: (Shared<T>, RawSender<T>, RawReceiver<E, T>))
    ensures
        channel.0.wf(),
        channel.0@ == QueueState::<T>::empty(),
        channel.0.senders() == 1,
        channel.1.id() == channel.0.id(),
        channel.2.id() == channel.0.id(),
{
    let ghost id: int = arbitrary();
    let shared = Shared { queue: Queue::new(), senders: 1, id: Ghost(id) };
    let sender = RawSender { message: PhantomData, id: Ghost(id) };
    let receiver = RawReceiver { event: PhantomData, message: PhantomData, id: Ghost(id) };
    (shared, sender, receiver)
}

/// What a sender is told of a send.
pub open spec fn send_report<T>(result: Result<(), T>) -> Result<(), SendError<T>> {
    match result {
        Ok(()) => Ok(()),
        Err(value) => Err(SendError(value)),
    }
}

impl<T> RawSender<T> {
    /// The channel that the sender belongs to.
    pub closed spec fn id(&self) -> int {
        self.id@
    }

    /// Sends a message. It comes back if the receiver has hung up. Sending never waits.
    pub fn send(&self, shared: &mut Shared<T>, value: T) -> (res: Result<(), SendError<T>>)
        requires
            old(shared).wf(),
            old(shared).id() == self.id(),
            old(shared)@.has_room(),
        ensures
            Shared::same_halves(*old(shared), *final(shared)),
            res == send_report(old(shared)@.send_outcome(value).0),
            final(shared)@ == old(shared)@.send_outcome(value).1,
            old(shared)@.tail is Some ==> old(shared)@.sent(value, final(shared)@),
    {
        match shared.queue.send(value) {
            Ok(()) => Ok(()),
            Err(value) => Err(SendError(value)),
        }
    }

    /// Whether the memory has room for the next access of a send.
    pub fn can_step(&self, shared: &Shared<T>, op: &SendOp<T>) -> (able: bool)
        requires
            shared.wf(),
            shared.id() == self.id(),
            op@.ok(shared@),
        ensures
            able == op@.ready(shared@),
    {
        op.can_step(&shared.queue)
    }

    /// Makes the next access of a send that other sends may come in between.
    pub fn step(&self, shared: &mut Shared<T>, op: &mut SendOp<T>) -> (signal: Signal)
        requires
            old(shared).wf(),
            old(shared).id() == self.id(),
            old(op).wf(),
            old(op)@.ready(old(shared)@),
        ensures
            Shared::same_halves(*old(shared), *final(shared)),
            final(op).wf(),
            (final(shared)@, final(op)@, signal) == crate::state::send_next(
                old(shared)@,
                old(op)@,
            ),
    {
        op.step(&mut shared.queue)
    }

    /// One more sender for the same channel.
    pub fn clone(&self, shared: &mut Shared<T>) -> (sender: RawSender<T>)
        requires
            old(shared).wf(),
            old(shared).id() == self.id(),
            old(shared).senders() >= 1,
            old(shared).handles() < isize::MAX,
        ensures
            Shared::sender_cloned(*old(shared), *final(shared)),
            sender.id() == self.id(),
    {
        shared.senders = shared.senders + 1;
        RawSender { message: PhantomData, id: Ghost(self.id@) }
    }

    /// Hangs up a sender. With the last sender the channel is closed, and the receiver is
    /// notified, if there is still a receiver to tell.
    pub fn drop(self, shared: &mut Shared<T>)
        requires
            old(shared).wf(),
            old(shared).id() == self.id(),
            old(shared).senders() >= 1,
        ensures
            Shared::sender_dropped(*old(shared), *final(shared)),
    {
        shared.senders = shared.senders - 1;
        if shared.senders == 0 && shared.queue.has_receiver() {
            shared.queue.disconnect(true);
        }
    }
}

/// What a receiver is told of a look for a message.
pub open spec fn try_recv_report<T>(result: Result<Option<T>, ()>) -> Result<T, TryRecvError> {
    match result {
        Ok(Some(value)) => Ok(value),
        Ok(None) => Err(TryRecvError::Empty),
        Err(()) => Err(TryRecvError::Disconnected),
    }
}

/// What a receiver that waits is told of a round.
pub open spec fn recv_report<T>(round: RecvRound<Result<T, ()>>) -> RecvRound<
    Result<T, RecvError>,
> {
    match round {
        RecvRound::Done(Ok(value)) => RecvRound::Done(Ok(value)),
        RecvRound::Done(Err(())) => RecvRound::Done(Err(RecvError)),
        RecvRound::Spin => RecvRound::Spin,
        RecvRound::Sleep => RecvRound::Sleep,
        RecvRound::Again => RecvRound::Again,
    }
}

/// What a receiver that waits for a time is told of a round.
pub open spec fn recv_timeout_report<T, D>(
    round: TimedRound<Result<Option<T>, ()>, D>,
) -> TimedRound<Result<T, RecvTimeoutError>, D> {
    match round {
        TimedRound::Done(Ok(Some(value))) => TimedRound::Done(Ok(value)),
        TimedRound::Done(Ok(None)) => TimedRound::Done(Err(RecvTimeoutError::Timeout)),
        TimedRound::Done(Err(())) => TimedRound::Done(Err(RecvTimeoutError::Disconnected)),
        TimedRound::Sleep(timeout) => TimedRound::Sleep(timeout),
        TimedRound::Again => TimedRound::Again,
    }
}

impl<E, T> RawReceiver<E, T> {
    /// The channel that the receiver belongs to.
    pub closed spec fn id(&self) -> int {
        self.id@
    }

    /// Receives the message at the front, if there is one.
    pub fn try_recv(&self, shared: &mut Shared<T>) -> (res: Result<T, TryRecvError>)
        requires
            old(shared).wf(),
            old(shared).id() == self.id(),
        ensures
            Shared::same_halves(*old(shared), *final(shared)),
            res == try_recv_report(old(shared)@.recv_outcome().0),
            final(shared)@ == old(shared)@.recv_outcome().1,
            old(shared)@.read(final(shared)@),
    {
        match shared.queue.try_recv() {
            Ok(Some(value)) => Ok(value),
            Ok(None) => Err(TryRecvError::Empty),
            Err(()) => Err(TryRecvError::Disconnected),
        }
    }

    /// Hangs up the receiver. From now on every send fails.
    pub fn drop(self, shared: &mut Shared<T>)
        requires
            old(shared).wf(),
            old(shared).id() == self.id(),
            old(shared)@.tail is Some,
        ensures
            Shared::receiver_dropped(*old(shared), *final(shared)),
    {
        shared.queue.disconnect(false);
    }
}

impl<E: Event, T> RawReceiver<E, T> {
    /// One round of a receive that waits: looks for a message, and says what to do if there is
    /// none. The receive looks sixteen times before it sleeps for the first time.
    pub fn recv(&self, shared: &mut Shared<T>, waiting: &mut Waiting) -> (round: RecvRound<
        Result<T, RecvError>,
    >)
        requires
            old(shared).wf(),
            old(shared).id() == self.id(),
        ensures
            Shared::same_halves(*old(shared), *final(shared)),
            ({
                let (said, memory, after) = crate::wait::recv_round(
                    old(shared)@,
                    *old(waiting),
                );
                &&& round == recv_report(said)
                &&& final(shared)@ == memory
                &&& *final(waiting) == after
            }),
    {
        match shared.queue.recv(waiting) {
            RecvRound::Done(Ok(value)) => RecvRound::Done(Ok(value)),
            RecvRound::Done(Err(())) => RecvRound::Done(Err(RecvError)),
            RecvRound::Spin => RecvRound::Spin,
            RecvRound::Sleep => RecvRound::Sleep,
            RecvRound::Again => RecvRound::Again,
        }
    }

    /// Ends a sleep that `recv` has asked for.
    pub fn resume(&self, shared: &mut Shared<T>)
        requires
            old(shared).wf(),
            old(shared).id() == self.id(),
        ensures
            Shared::same_halves(*old(shared), *final(shared)),
            final(shared)@ == crate::wait::awake(old(shared)@),
    {
        let _: TryParkResult<()> = shared.queue.resume();
    }
}

impl<E: TimedEvent, T> RawReceiver<E, T> {
    /// One round of a receive that waits for a time: looks for a message, and says what to do if
    /// there is none. When the time is used up, the receive has looked for the last time.
    pub fn recv_timeout(
        &self,
        shared: &mut Shared<T>,
        waiting: &mut TimedWaiting<E::Duration>,
    ) -> (round: TimedRound<Result<T, RecvTimeoutError>, E::Duration>)
        requires
            old(shared).wf(),
            old(shared).id() == self.id(),
        ensures
            Shared::same_halves(*old(shared), *final(shared)),
            ({
                let (said, memory, after) = crate::wait::timed_round(
                    old(shared)@,
                    *old(waiting),
                );
                &&& round == recv_timeout_report(said)
                &&& final(shared)@ == memory
                &&& *final(waiting) == after
            }),
    {
        match shared.queue.recv_timeout(waiting) {
            TimedRound::Done(Ok(Some(value))) => TimedRound::Done(Ok(value)),
            TimedRound::Done(Ok(None)) => TimedRound::Done(Err(RecvTimeoutError::Timeout)),
            TimedRound::Done(Err(())) => TimedRound::Done(Err(RecvTimeoutError::Disconnected)),
            TimedRound::Sleep(timeout) => TimedRound::Sleep(timeout),
            TimedRound::Again => TimedRound::Again,
        }
    }

    /// Ends a sleep that `recv_timeout` has asked for. If a notification ended it, the receive
    /// goes on with the time that is left, `left`; if the time ran out, it looks once more.
    pub fn resume_timeout(
        &self,
        shared: &mut Shared<T>,
        waiting: &mut TimedWaiting<E::Duration>,
        left: Option<E::Duration>,
    )
        requires
            old(shared).wf(),
            old(shared).id() == self.id(),
        ensures
            Shared::same_halves(*old(shared), *final(shared)),
            final(shared)@ == crate::wait::awake(old(shared)@),
            final(waiting).timeout == crate::wait::time_left(old(shared)@.parker, left),
    {
        shared.queue.resume_timeout(waiting, left)
    }
}

} // verus!
