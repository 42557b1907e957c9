//! Receives that wait, round by round.
//!
//! In each round the receiver looks for a message. If there is none, the round says what its
//! thread does before the next one.

use crate::parker::{ParkState, Parker, TryParkResult};
use crate::state::QueueState;
use vstd::prelude::*;

verus! {

/// A receive that waits for as long as it takes. It counts the times that it looks again before
/// it sleeps.
#[derive(Clone, Copy, Debug)]
pub struct Waiting {
    pub spins: u32,
}

impl Waiting {
    /// A receive that has not looked yet.
    pub fn new() -> (waiting: Waiting)
        ensures
            waiting.spins == 16,
    {
        Waiting { spins: 16 }
    }
}

/// What the thread of a receive that waits does next.
pub enum RecvRound<R> {
    /// The receive is over.
    Done(R),
    /// Rest for a moment and look again.
    Spin,
    /// Sleep until the event is set, call `resume`, and look again.
    Sleep,
    /// Look again at once.
    Again,
}

/// A receive that waits for a time.
pub struct TimedWaiting<D> {
    pub timeout: Option<D>,
}

impl<D> TimedWaiting<D> {
    /// A receive that has not looked yet.
    pub fn new(timeout: D) -> (waiting: TimedWaiting<D>)
        ensures
            waiting.timeout == Some(timeout),
    {
        TimedWaiting { timeout: Some(timeout) }
    }
}

/// What the thread of a receive that waits for a time does next.
pub enum TimedRound<R, D> {
    /// The receive is over.
    Done(R),
    /// Sleep until the event is set, at most for this long, call `resume_timeout`, and look
    /// again.
    Sleep(D),
    /// Look again at once.
    Again,
}

/// One round of a receive that waits: what it says, the memory after it, and the receive after
/// it.
pub open spec fn recv_round<T>(m: QueueState<T>, waiting: Waiting) -> (
    RecvRound<Result<T, ()>>,
    QueueState<T>,
    Waiting,
) {
    let (found, after) = m.recv_outcome();
    match found {
        Ok(Some(value)) => (RecvRound::Done(Ok(value)), after, waiting),
        Err(()) => (RecvRound::Done(Err(())), after, waiting),
        Ok(None) => if waiting.spins > 1 {
            (RecvRound::Spin, after, Waiting { spins: (waiting.spins - 1) as u32 })
        } else {
            let asked = QueueState { parker: crate::parker::parked(m.parker), ..after };
            (
                if asked.parker.state == ParkState::Parked {
                    RecvRound::Sleep
                } else {
                    RecvRound::Again
                },
                asked,
                Waiting { spins: 0 },
            )
        },
    }
}

/// One round of a receive that waits for a time: what it says, the memory after it, and the
/// receive after it. `Ok(None)` says that the time has run out.
pub open spec fn timed_round<T, D>(m: QueueState<T>, waiting: TimedWaiting<D>) -> (
    TimedRound<Result<Option<T>, ()>, D>,
    QueueState<T>,
    TimedWaiting<D>,
) {
    let (found, after) = m.recv_outcome();
    match (found, waiting.timeout) {
        (Ok(None), Some(timeout)) => {
            let asked = QueueState { parker: crate::parker::parked(m.parker), ..after };
            if asked.parker.state == ParkState::Parked {
                (TimedRound::Sleep(timeout), asked, TimedWaiting { timeout: None })
            } else {
                (TimedRound::Again, asked, waiting)
            }
        },
        _ => (TimedRound::Done(found), after, waiting),
    }
}

/// The time that a receive goes on with when a sleep ends that left `left` of it: none where the
/// time ran out before a notification came.
pub open spec fn time_left<D>(parker: Parker, left: Option<D>) -> Option<D> {
    match crate::parker::outcome::<D>(parker) {
        TryParkResult::Unparked => left,
        TryParkResult::Interrupted(unused) => Some(unused),
        TryParkResult::Timeout => None,
    }
}

/// Where there is a message, or the senders have hung up, a receive that waits gives what one
/// that does not wait gives, with the same effect: it neither rests nor sleeps.
pub proof fn law_recv_without_waiting<T>(m: QueueState<T>, waiting: Waiting)
    requires
        m.front() is Some || m.closed,
    ensures
        recv_round(m, waiting).0 == (match m.recv_outcome().0 {
            Ok(Some(value)) => RecvRound::Done(Ok::<T, ()>(value)),
            _ => RecvRound::Done(Err(())),
        }),
        recv_round(m, waiting).1 == m.recv_outcome().1,
        recv_round(m, waiting).2 == waiting,
        m.front() is None ==> m.recv_outcome().0 == Err::<Option<T>, ()>(()),
{
}

/// Where there is a message, or the senders have hung up, a receive that waits for a time gives
/// what one that does not wait gives, with the same effect, whatever the time: it does not sleep,
/// and does not say that the time has run out.
pub proof fn law_timed_without_waiting<T, D>(m: QueueState<T>, waiting: TimedWaiting<D>)
    requires
        m.front() is Some || m.closed,
    ensures
        timed_round(m, waiting).0 == TimedRound::<Result<Option<T>, ()>, D>::Done(
            m.recv_outcome().0,
        ),
        timed_round(m, waiting).1 == m.recv_outcome().1,
        timed_round(m, waiting).2 == waiting,
        m.recv_outcome().0 != Ok::<Option<T>, ()>(None),
        m.front() is None ==> m.recv_outcome().0 == Err::<Option<T>, ()>(()),
{
}

/// A receive that waits returns for no other reason than that there is a message or that the
/// senders have hung up.
pub proof fn law_recv_waits<T>(m: QueueState<T>, waiting: Waiting)
    ensures
        recv_round(m, waiting).0 is Done <==> m.front() is Some || m.closed,
        recv_round(m, waiting).0 is Sleep ==> recv_round(m, waiting).1.parker.state
            == ParkState::Parked,
{
}

/// A receive that waits for a time returns without a message only when the senders have hung up,
/// or when the time has run out.
pub proof fn law_timed_waits<T, D>(m: QueueState<T>, waiting: TimedWaiting<D>)
    ensures
        timed_round(m, waiting).0 is Done <==> m.front() is Some || m.closed || waiting.timeout
            is None,
        timed_round(m, waiting).0 == TimedRound::<Result<Option<T>, ()>, D>::Done(Ok(None))
            <==> m.front() is None && !m.closed && waiting.timeout is None,
{
}

/// The memory when the receiver has stopped sleeping.
pub open spec fn awake<T>(m: QueueState<T>) -> QueueState<T> {
    QueueState { parker: crate::parker::resumed(m.parker), ..m }
}

/// A receive that sleeps on an empty queue is woken by a send, and then returns its message.
pub proof fn law_woken_by_send<T>(m: QueueState<T>, waiting: Waiting, value: T, then: Waiting)
    requires
        m.wf(),
        m.queued().len() == 0,
        m.tail is Some,
        m.has_room(),
        recv_round(m, waiting).0 is Sleep,
    ensures
        ({
            let sent = recv_round(m, waiting).1.with_sent(value);
            &&& sent.parker.wake
            &&& recv_round(awake(sent), then).0 == RecvRound::Done(Ok::<T, ()>(value))
        }),
{
    crate::state::lemma_with_read(m);
    let asleep = recv_round(m, waiting).1;
    assert(asleep.queued() =~= m.queued());
    crate::state::lemma_with_sent(asleep, value);
    let sent = asleep.with_sent(value);
    assert(awake(sent).queued() =~= sent.queued());
    assert(awake(sent).queued()[0] == Some(value));
}

/// A receive that sleeps on an empty queue is woken when the last sender hangs up, and then
/// returns the error.
pub proof fn law_woken_by_hang_up<T>(m: QueueState<T>, waiting: Waiting, then: Waiting)
    requires
        m.wf(),
        m.queued().len() == 0,
        recv_round(m, waiting).0 is Sleep,
    ensures
        ({
            let closed = recv_round(m, waiting).1.with_hang_up(true);
            &&& closed.parker.wake
            &&& recv_round(awake(closed), then).0 == RecvRound::Done(Err::<T, ()>(()))
        }),
{
    crate::state::lemma_with_read(m);
    let closed = recv_round(m, waiting).1.with_hang_up(true);
    assert(awake(closed).queued() =~= m.queued());
}

/// A timed receive that sleeps on an empty queue is woken by a send or by the hang-up of the last
/// sender, and then returns the message or the error, however little time is left.
pub proof fn law_timed_woken<T, D>(
    m: QueueState<T>,
    waiting: TimedWaiting<D>,
    value: T,
    then: TimedWaiting<D>,
)
    requires
        m.wf(),
        m.queued().len() == 0,
        m.tail is Some,
        m.has_room(),
        timed_round(m, waiting).0 is Sleep,
    ensures
        ({
            let sent = timed_round(m, waiting).1.with_sent(value);
            &&& sent.parker.wake
            &&& timed_round(awake(sent), then).0 == TimedRound::<
                Result<Option<T>, ()>,
                D,
            >::Done(Ok(Some(value)))
        }),
        ({
            let closed = timed_round(m, waiting).1.with_hang_up(true);
            &&& closed.parker.wake
            &&& timed_round(awake(closed), then).0 == TimedRound::<
                Result<Option<T>, ()>,
                D,
            >::Done(Err(()))
        }),
{
    crate::state::lemma_with_read(m);
    let asleep = timed_round(m, waiting).1;
    assert(asleep.queued() =~= m.queued());
    crate::state::lemma_with_sent(asleep, value);
    let sent = asleep.with_sent(value);
    assert(awake(sent).queued() =~= sent.queued());
    assert(awake(sent).queued()[0] == Some(value));
    let closed = asleep.with_hang_up(true);
    assert(awake(closed).queued() =~= m.queued());
}

/// A timed receive that finds nothing, while senders are there, and has time `timeout` left: it
/// sleeps for that time, registered as asleep, unless a notification is there or the receiver is
/// never to sleep again. Then it looks again at once, still with all of its time, and the
/// notification is used up. Nothing else changes than what every look changes.
pub proof fn law_timed_sleeps<T, D>(m: QueueState<T>, timeout: D)
    requires
        m.front() is None,
        !m.closed,
    ensures
        ({
            let (round, after, then) = timed_round(m, TimedWaiting { timeout: Some(timeout) });
            &&& m.parker.state == ParkState::Empty || m.parker.state == ParkState::Parked ==> {
                &&& round == TimedRound::<Result<Option<T>, ()>, D>::Sleep(timeout)
                &&& after.parker.state == ParkState::Parked
                &&& then.timeout is None
            }
            &&& m.parker.state == ParkState::Notified || m.parker.state == ParkState::Closed ==> {
                &&& round == TimedRound::<Result<Option<T>, ()>, D>::Again
                &&& then.timeout == Some(timeout)
            }
            &&& m.parker.state == ParkState::Notified ==> after.parker.state == ParkState::Empty
            &&& m.parker.state == ParkState::Closed ==> after.parker.state == ParkState::Closed
            &&& after.parker.wake == m.parker.wake
            &&& after == QueueState { parker: after.parker, ..m.with_read() }
        }),
{
}

/// A timed receive gives up none of its time but to sleep for it.
pub proof fn law_time_is_slept<T, D>(m: QueueState<T>, waiting: TimedWaiting<D>)
    ensures
        timed_round(m, waiting).2.timeout != waiting.timeout ==> waiting.timeout is Some
            && timed_round(m, waiting).0 == TimedRound::<Result<Option<T>, ()>, D>::Sleep(
            waiting.timeout->0,
        ),
        timed_round(m, waiting).0 matches TimedRound::Sleep(time) ==> waiting.timeout == Some(time),
{
}

/// A timed receive after it has looked at the memory a number of times.
pub open spec fn after_looks<T, D>(looks: Seq<QueueState<T>>, waiting: TimedWaiting<D>) ->
    TimedWaiting<D>
    decreases looks.len(),
{
    if looks.len() == 0 {
        waiting
    } else {
        timed_round(looks.last(), after_looks(looks.drop_last(), waiting)).2
    }
}

/// However often a timed receive looks, whatever has happened to the memory in between, it does
/// not say that the time has run out before it has slept: until then it has all of its time.
pub proof fn law_no_early_timeout<T, D>(looks: Seq<QueueState<T>>, timeout: D)
    requires
        forall|i: int|
            0 <= i < looks.len() ==> !(timed_round(
                #[trigger] looks[i],
                after_looks(looks.take(i), TimedWaiting { timeout: Some(timeout) }),
            ).0 is Sleep),
    ensures
        after_looks(looks, TimedWaiting { timeout: Some(timeout) }).timeout == Some(timeout),
        forall|i: int|
            0 <= i < looks.len() ==> timed_round(
                #[trigger] looks[i],
                after_looks(looks.take(i), TimedWaiting { timeout: Some(timeout) }),
            ).0 != TimedRound::<Result<Option<T>, ()>, D>::Done(Ok(None)),
    decreases looks.len(),
{
    let waiting = TimedWaiting { timeout: Some(timeout) };
    if looks.len() > 0 {
        let before = looks.drop_last();
        let last = looks.len() - 1;
        assert forall|i: int| 0 <= i < before.len() implies !(timed_round(
            #[trigger] before[i],
            after_looks(before.take(i), waiting),
        ).0 is Sleep) by {
            assert(before.take(i) =~= looks.take(i));
            assert(looks[i] == before[i]);
        }
        law_no_early_timeout(before, timeout);
        assert(looks.take(last) =~= before);
        assert(looks[last] == looks.last());
        assert forall|i: int| 0 <= i < looks.len() implies timed_round(
            #[trigger] looks[i],
            after_looks(looks.take(i), waiting),
        ).0 != TimedRound::<Result<Option<T>, ()>, D>::Done(Ok(None)) by {
            if i < last {
                assert(before.take(i) =~= looks.take(i));
                assert(before[i] == looks[i]);
            }
        }
    }
}

/// A timed receive goes on after a sleep exactly with the time that is left where a notification
/// ended the sleep, or where the receiver is never to sleep again, and with none where the time
/// ran out.
pub proof fn law_time_after_sleep<D>(parker: Parker, left: Option<D>)
    ensures
        parker.state == ParkState::Notified || parker.state == ParkState::Closed ==> time_left(
            parker,
            left,
        ) == left,
        parker.state == ParkState::Empty || parker.state == ParkState::Parked ==> time_left(
            parker,
            left,
        ) is None,
{
}

/// A timed receive says that the time has run out when it finds nothing, while senders are there,
/// with no time left.
pub proof fn law_timeout_is_said<T, D>(m: QueueState<T>)
    requires
        m.front() is None,
        !m.closed,
    ensures
        timed_round(m, TimedWaiting::<D> { timeout: None }).0 == TimedRound::<
            Result<Option<T>, ()>,
            D,
        >::Done(Ok(None)),
        timed_round(m, TimedWaiting::<D> { timeout: None }).1 == m.with_read(),
{
}

/// A receive that waits and finds nothing, while senders are there: it rests as long as it has
/// looks left, and has one less afterwards. With its last look it asks to sleep, and sleeps,
/// registered as asleep, unless a notification is there or it is never to sleep again. Nothing
/// else changes than what every look changes.
pub proof fn law_recv_sleeps<T>(m: QueueState<T>, waiting: Waiting)
    requires
        m.front() is None,
        !m.closed,
    ensures
        ({
            let (round, after, then) = recv_round(m, waiting);
            &&& waiting.spins >= 2 ==> {
                &&& round == RecvRound::<Result<T, ()>>::Spin
                &&& then.spins + 1 == waiting.spins
                &&& after == m.with_read()
            }
            &&& waiting.spins < 2 ==> {
                &&& then.spins == 0
                &&& m.parker.state == ParkState::Empty || m.parker.state == ParkState::Parked ==> {
                    &&& round == RecvRound::<Result<T, ()>>::Sleep
                    &&& after.parker.state == ParkState::Parked
                }
                &&& m.parker.state == ParkState::Notified || m.parker.state == ParkState::Closed
                    ==> round == RecvRound::<Result<T, ()>>::Again
                &&& m.parker.state == ParkState::Notified ==> after.parker.state
                    == ParkState::Empty
                &&& m.parker.state == ParkState::Closed ==> after.parker.state
                    == ParkState::Closed
                &&& after.parker.wake == m.parker.wake
                &&& after == QueueState { parker: after.parker, ..m.with_read() }
            }
        }),
{
}

/// A receive after it has looked at the memory a number of times.
pub open spec fn after_rounds<T>(looks: Seq<QueueState<T>>, waiting: Waiting) -> Waiting
    decreases looks.len(),
{
    if looks.len() == 0 {
        waiting
    } else {
        recv_round(looks.last(), after_rounds(looks.drop_last(), waiting)).2
    }
}

/// A receive that finds nothing rests after each of its first fifteen looks, and asks to sleep
/// after the sixteenth and after every later one.
pub proof fn law_sixteen_looks<T>(looks: Seq<QueueState<T>>, m: QueueState<T>)
    requires
        m.front() is None,
        !m.closed,
        forall|i: int| 0 <= i < looks.len() ==> (#[trigger] looks[i]).front() is None,
        forall|i: int| 0 <= i < looks.len() ==> !(#[trigger] looks[i]).closed,
    ensures
        after_rounds(looks, Waiting { spins: 16 }).spins == (if looks.len() < 15 {
            16 - looks.len()
        } else if looks.len() == 15 {
            1
        } else {
            0
        }),
        recv_round(m, after_rounds(looks, Waiting { spins: 16 })).0 is Spin <==> looks.len() < 15,
    decreases looks.len(),
{
    if looks.len() > 0 {
        assert(looks[looks.len() - 1] == looks.last());
        law_sixteen_looks(looks.drop_last(), looks.last());
    }
}

/// A receiver that has stopped sleeping has seen every notification so far, unless it is never to
/// sleep again; nothing else has changed.
pub proof fn law_awake<T>(m: QueueState<T>)
    ensures
        m.parker.state != ParkState::Closed ==> awake(m).parker.state == ParkState::Empty,
        m.parker.state == ParkState::Closed ==> awake(m).parker.state == ParkState::Closed,
        awake(m).parker.wake == m.parker.wake,
        awake(m) == (QueueState { parker: awake(m).parker, ..m }),
{
}

} // verus!
