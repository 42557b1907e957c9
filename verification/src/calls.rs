//! What a channel promises of operations that are made one after the other.

use crate::block::SlotState;
use crate::channel::Shared;
use crate::error::{RecvError, RecvTimeoutError, SendError, TryRecvError};
use crate::parker::ParkState;
use crate::protocol::{Step, World};
use crate::state::QueueState;
use crate::wait::{RecvRound, TimedRound};
use vstd::prelude::*;

verus! {

/// The memory after a row of sends.
pub open spec fn after_sends<T>(m: QueueState<T>, values: Seq<T>) -> QueueState<T>
    decreases values.len(),
{
    if values.len() == 0 {
        m
    } else {
        after_sends(m, values.drop_last()).send_outcome(values.last()).1
    }
}

/// The memory after a row of receives.
pub open spec fn after_reads<T>(m: QueueState<T>, count: nat) -> QueueState<T>
    decreases count,
{
    if count == 0 {
        m
    } else {
        after_reads(m, (count - 1) as nat).recv_outcome().1
    }
}

/// Once a send has been refused, every later send is refused, after any number of sends in
/// between: it gives its message back and changes nothing. None of them needs any room.
pub proof fn law_refused_for_ever<T>(m: QueueState<T>, refused: T, values: Seq<T>, value: T)
    requires
        m.send_outcome(refused).0 is Err,
    ensures
        m.send_outcome(refused) == (Err::<(), T>(refused), m),
        after_sends(m, values) == m,
        m.has_room(),
        after_sends(m, values).send_outcome(value) == (Err::<(), T>(value), m),
    decreases values.len(),
{
    if values.len() > 0 {
        law_refused_for_ever(m, refused, values.drop_last(), values.last());
    }
}

/// After the receiver has hung up, every send is refused, and nothing changes for the receiving
/// side: the same messages are queued, and receives give what they would have given.
pub proof fn law_after_hang_up<T>(m: QueueState<T>, values: Seq<T>, value: T, count: nat)
    ensures
        ({
            let gone = m.with_hang_up(false);
            &&& gone.has_room()
            &&& after_sends(gone, values).send_outcome(value) == (Err::<(), T>(value), gone)
            &&& gone.queued() == m.queued()
            &&& gone.closed == m.closed
            &&& after_reads(gone, count) == after_reads(m, count).with_hang_up(false)
            &&& after_reads(gone, count).recv_outcome().0 == after_reads(m, count).recv_outcome().0
        }),
    decreases count,
{
    let gone = m.with_hang_up(false);
    law_refused_for_ever(gone, value, values, value);
    assert(gone.queued() =~= m.queued());
    if count > 0 {
        law_after_hang_up(m, values, value, (count - 1) as nat);
    }
    let then = after_reads(m, count);
    assert(then.with_hang_up(false).queued() =~= then.queued());
}

/// Receives give the messages that are queued one after the other. When they are used up, a
/// receive says that the senders have hung up if they have, and that there is nothing if they
/// have not.
pub proof fn law_used_up<T>(m: QueueState<T>, count: nat)
    requires
        m.wf(),
        m.written(),
    ensures
        after_reads(m, count).wf(),
        after_reads(m, count).closed == m.closed,
        after_reads(m, count).queued() == (if count <= m.queued().len() {
            m.queued().skip(count as int)
        } else {
            Seq::empty()
        }),
        after_reads(m, count).recv_outcome().0 == (if count < m.queued().len() {
            Ok(m.queued()[count as int])
        } else if m.closed {
            Err::<Option<T>, ()>(())
        } else {
            Ok(None)
        }),
    decreases count,
{
    if count > 0 {
        let before = after_reads(m, (count - 1) as nat);
        law_used_up(m, (count - 1) as nat);
        crate::state::lemma_with_read(before);
        if count <= m.queued().len() {
            assert(m.queued()[count - 1] is Some);
            assert(before.queued()[0] == m.queued()[count - 1]);
        }
        assert(after_reads(m, count).queued() =~= (if count <= m.queued().len() {
            m.queued().skip(count as int)
        } else {
            Seq::empty()
        }));
    } else {
        assert(m.queued().skip(0) =~= m.queued());
    }
    if count < m.queued().len() {
        assert(m.queued()[count as int] is Some);
    }
}

/// A send never fails, and never waits, for want of capacity: whatever has been sent before and
/// has not been received, one more send succeeds, as long as there are addresses for the blocks.
pub proof fn law_unbounded<T>(m: QueueState<T>, values: Seq<T>, value: T)
    requires
        m.wf(),
        m.tail is Some,
        m.can_claim(),
        4096 * ((m.issued + values.len()) / 256 + 4) <= usize::MAX,
    ensures
        ({
            let then = after_sends(m, values);
            &&& then.wf()
            &&& then.tail is Some
            &&& then.has_room()
            &&& then.issued == m.issued + values.len()
            &&& then.queued() == m.queued() + values.map_values(|value: T| Some(value))
            &&& then.send_outcome(value).0 == Ok::<(), T>(())
            &&& then.send_outcome(value).1.queued() == then.queued().push(Some(value))
        }),
    decreases values.len(),
{
    let then = after_sends(m, values);
    if values.len() > 0 {
        law_unbounded(m, values.drop_last(), values.last());
        let before = after_sends(m, values.drop_last());
        crate::state::lemma_with_sent(before, values.last());
        assert(values.map_values(|value: T| Some(value)) =~= values.drop_last().map_values(
            |value: T| Some(value),
        ).push(Some(values.last())));
    }
    assert(then.queued() =~= m.queued() + values.map_values(|value: T| Some(value)));
    crate::state::lemma_with_sent(then, value);
}

/// What is sent to an empty queue comes out in the order in which it was sent: the receive after
/// `count` others gives message `count`, until there is none left.
pub proof fn law_first_in_first_out<T>(m: QueueState<T>, values: Seq<T>, count: nat)
    requires
        m.wf(),
        m.queued().len() == 0,
        m.tail is Some,
        m.can_claim(),
        4096 * ((m.issued + values.len()) / 256 + 4) <= usize::MAX,
    ensures
        after_sends(m, values).queued() == values.map_values(|value: T| Some(value)),
        after_reads(after_sends(m, values), count).recv_outcome().0 == (if count < values.len() {
            Ok(Some(values[count as int]))
        } else if m.closed {
            Err::<Option<T>, ()>(())
        } else {
            Ok(None)
        }),
{
    let then = after_sends(m, values);
    if values.len() > 0 {
        law_unbounded(m, values, values[0]);
    }
    assert(then.queued() =~= values.map_values(|value: T| Some(value)));
    lemma_sends_keep_closed(m, values);
    law_used_up(then, count);
}

/// Sends do not tell the receiver that the senders have hung up.
proof fn lemma_sends_keep_closed<T>(m: QueueState<T>, values: Seq<T>)
    ensures
        after_sends(m, values).closed == m.closed,
    decreases values.len(),
{
    if values.len() > 0 {
        lemma_sends_keep_closed(m, values.drop_last());
    }
}

/// A cloned sender belongs to the same channel. Cloning changes no message; what the two senders
/// send is queued in one order; and when one of them hangs up, the channel does not close.
pub proof fn law_clone<T>(
    start: Shared<T>,
    cloned: Shared<T>,
    first: T,
    sent: Shared<T>,
    second: T,
    both: Shared<T>,
    dropped: Shared<T>,
)
    requires
        start.wf(),
        start@.tail is Some,
        start.senders() >= 1,
        Shared::sender_cloned(start, cloned),
        Shared::same_halves(cloned, sent),
        cloned@.sent(first, sent@),
        Shared::same_halves(sent, both),
        sent@.sent(second, both@),
        Shared::sender_dropped(both, dropped),
    ensures
        cloned@.queued() == start@.queued(),
        both@.queued() == start@.queued().push(Some(first)).push(Some(second)),
        dropped@.queued() == both@.queued(),
        dropped.senders() == start.senders(),
        !dropped@.closed,
        dropped.id() == start.id(),
{
}

/// The channel closes with the last of its senders, and not before: with `n` senders, when `n` of
/// them have hung up.
pub proof fn law_last_sender<T>(states: Seq<Shared<T>>)
    requires
        states.len() > 0,
        states[0].wf(),
        states[0]@.tail is Some,
        forall|i: int|
            0 <= i < states.len() - 1 ==> #[trigger] Shared::sender_dropped(
                states[i],
                states[i + 1],
            ),
    ensures
        states.last().wf(),
        states.last()@.tail is Some,
        states.last().senders() == states[0].senders() - (states.len() - 1),
        states.last()@.closed <==> states.len() - 1 == states[0].senders(),
    decreases states.len(),
{
    if states.len() > 1 {
        let before = states.drop_last();
        assert forall|i: int| 0 <= i < before.len() - 1 implies #[trigger] Shared::sender_dropped(
            before[i],
            before[i + 1],
        ) by {
            assert(Shared::sender_dropped(states[i], states[i + 1]));
        }
        law_last_sender(before);
        assert(Shared::sender_dropped(states[states.len() - 2], states[states.len() - 2 + 1]));
    }
}

/// What a sender does to a channel is what the sends and the senders of a [`World`] do to its
/// memory, so what holds of every world holds of every channel: as long as there is a sender, a
/// send may begin; and a send that may make its next access on the channel may make it there, to
/// the same effect.
pub proof fn law_sends_are_steps<T>(w: World<T>, shared: Shared<T>, id: int, value: T)
    requires
        w.inv(),
        w.memory == shared@,
        shared.wf(),
        shared.senders() >= 1,
    ensures
        !w.sends.contains_key(id) ==> w.enabled(Step::Begin { id, value }),
        w.sends.contains_key(id) && w.sends[id].ready(shared@) && !w.sends[id].over() ==> {
            &&& w.enabled(Step::Send { id })
            &&& w.after(Step::Send { id }).memory == crate::state::send_next(
                shared@,
                w.sends[id],
            ).0
        },
{
}

/// A sender that hangs up leaves a channel that a world describes: it closes the channel only
/// where no sender is left, and so no send is under way, since a send borrows a sender.
pub proof fn law_hang_ups_are_steps<T>(w: World<T>, before: Shared<T>, after: Shared<T>)
    requires
        w.inv(),
        w.memory == before@,
        before.wf(),
        before.senders() >= 1,
        Shared::sender_dropped(before, after),
        after.senders() == 0 ==> forall|id: int|
            w.sends.contains_key(id) ==> (#[trigger] w.sends[id]).over(),
    ensures
        after@ != before@ ==> {
            &&& after.senders() == 0
            &&& w.enabled(Step::CloseSenders)
            &&& after@ == w.after(Step::CloseSenders).memory
            &&& w.after(Step::CloseSenders).inv()
        },
{
    if after@ != before@ {
        crate::laws::law_step(w, Step::CloseSenders);
    }
}

/// A receiver that hangs up, when it is not receiving, leaves a channel that a world describes.
pub proof fn law_receiver_drop_is_a_step<T>(w: World<T>, before: Shared<T>, after: Shared<T>)
    requires
        w.inv(),
        w.memory == before@,
        w.recv.phase is Done,
        !w.asleep,
        before@.tail is Some,
        Shared::receiver_dropped(before, after),
    ensures
        w.enabled(Step::CloseReceiver),
        after@ == w.after(Step::CloseReceiver).memory,
        w.after(Step::CloseReceiver).inv(),
{
    crate::laws::law_step(w, Step::CloseReceiver);
}

/// Whether a sender of the channel has done something: sent a message, made one access of a send,
/// been cloned, or hung up.
pub open spec fn sender_acted<T>(before: Shared<T>, after: Shared<T>) -> bool {
    ||| exists|value: T|
        Shared::same_halves(before, after) && after@ == #[trigger] before@.send_outcome(value).1
    ||| exists|op: crate::state::SendState<T>|
        Shared::same_halves(before, after) && op.ready(before@) && after@
            == (#[trigger] crate::state::send_next(before@, op)).0
    ||| Shared::sender_cloned(before, after)
    ||| Shared::sender_dropped(before, after)
}

/// After the receiver has hung up, every send of every sender gives its message back, for ever,
/// whatever the senders do: the first state is that before the hang-up, the second that after it.
pub proof fn law_receiver_gone<T>(states: Seq<Shared<T>>, value: T)
    requires
        states.len() >= 2,
        states[0].wf(),
        Shared::receiver_dropped(states[0], states[1]),
        forall|i: int|
            1 <= i < states.len() - 1 ==> #[trigger] sender_acted(states[i], states[i + 1]),
    ensures
        states.last().wf(),
        states.last().id() == states[0].id(),
        states.last()@.has_room(),
        states.last()@.send_outcome(value) == (Err::<(), T>(value), states.last()@),
        crate::channel::send_report(states.last()@.send_outcome(value).0) == Err::<
            (),
            crate::error::SendError<T>,
        >(crate::error::SendError(value)),
    decreases states.len(),
{
    if states.len() > 2 {
        let before = states.drop_last();
        assert forall|i: int| 1 <= i < before.len() - 1 implies #[trigger] sender_acted(
            before[i],
            before[i + 1],
        ) by {
            assert(sender_acted(states[i], states[i + 1]));
        }
        law_receiver_gone(before, value);
        let last = states.len() - 2;
        assert(sender_acted(states[last], states[last + 1]));
        assert(states[last]@.tail is None);
        assert(states[last + 1]@.tail is None);
    }
}

/// A new queue has no message and room for one. Nobody has hung up, sleeps, or has been notified,
/// and a receive finds nothing.
pub proof fn law_new_queue<T>()
    ensures
        ({
            let m = QueueState::<T>::empty();
            &&& m.wf()
            &&& m.queued().len() == 0
            &&& m.front() is None
            &&& m.tail == Some((0int, 0int))
            &&& m.head == (0int, 0int)
            &&& m.has_room()
            &&& !m.closed
            &&& m.parker.state == ParkState::Empty
            &&& !m.parker.wake
            &&& m.blocks == 0
            &&& m.slots.len() == 0
            &&& m.pending.len() == 0
            &&& m.issued == 0
            &&& m.recv_outcome() == (Ok::<Option<T>, ()>(None), m)
        }),
{
}

/// What a send to a receiver that has not hung up changes, from the word that the tail holds: the
/// block `n` that the tail is at and the index `i` in it. The message goes into the slot behind
/// all that have been claimed, and the receiver is notified. Where the block has a slot left, no
/// count and no block changes. Otherwise the tail moves to the first slot of the next block, which
/// is linked if there is none, and all who came to the block that is used up, this sender and
/// those behind its 256 slots, are counted on it; the sender of the very first message counts 1 on
/// the first block.
pub proof fn law_send_effect<T>(m: QueueState<T>, value: T, n: int, i: int)
    requires
        m.wf(),
        m.tail == Some((n, i)),
        m.has_room(),
    ensures
        ({
            let (res, after) = m.send_outcome(value);
            let fits = n > 0 && i < 256;
            &&& res == Ok::<(), T>(())
            &&& after.wf()
            &&& after.queued() == m.queued().push(Some(value))
            &&& after.issued == m.issued + 1
            &&& after.slots[m.issued] == SlotState::Full(value)
            &&& forall|t: int|
                0 <= t < m.slots.len() && t != m.issued ==> #[trigger] after.slots[t] == m.slots[t]
            &&& after.closed == m.closed
            &&& m.blocks > 0 ==> after.head == m.head
            &&& m.blocks == 0 ==> after.head == (1int, 0int)
            &&& after.parker.state == (if m.parker.state == ParkState::Closed {
                ParkState::Closed
            } else {
                ParkState::Notified
            })
            &&& after.parker.wake == (m.parker.wake || m.parker.state == ParkState::Parked)
            &&& fits ==> {
                &&& after.tail == Some((n, i + 1))
                &&& after.blocks == m.blocks
                &&& after.pending == m.pending
            }
            &&& !fits ==> {
                &&& after.tail == Some((n + 1, 1int))
                &&& after.blocks == n + 1
                &&& n > 0 ==> after.pending[n - 1] == m.pending[n - 1] + (i + 1) - 256
                &&& n == 0 ==> after.pending[0] == 1 + (if m.blocks > 0 {
                    m.pending[0]
                } else {
                    0
                })
                &&& forall|b: int|
                    0 <= b < after.blocks && b != n - 1 && (n == 0 ==> b != 0)
                        ==> #[trigger] after.pending[b] == (if b < m.blocks {
                        m.pending[b]
                    } else {
                        0
                    })
            }
        }),
{
    crate::state::lemma_with_sent(m, value);
}

/// What a receive changes and gives. Where the first message in line has been written, it gives
/// that one and takes it out of its slot; otherwise it says whether the senders have hung up, and
/// takes nothing. A block that has been read to its end is left for the next one, if there is one,
/// and counted as done with by one more.
pub proof fn law_recv_effect<T>(m: QueueState<T>)
    requires
        m.wf(),
    ensures
        ({
            let (res, after) = m.recv_outcome();
            let found = m.received() < m.issued && m.slots[m.received()] is Full;
            let leaves = m.head.0 > 0 && m.head.0 < m.blocks && m.head.1 == 256;
            &&& after.wf()
            &&& found ==> {
                &&& res == Ok::<Option<T>, ()>(Some(m.slots[m.received()]->Full_0))
                &&& after.received() == m.received() + 1
                &&& after.slots[m.received()] is Taken
                &&& after.queued() == m.queued().skip(1)
                &&& 1 <= after.head.1 <= 256
            }
            &&& !found ==> {
                &&& res is Err <==> m.closed
                &&& !m.closed ==> res == Ok::<Option<T>, ()>(None)
                &&& after.slots == m.slots
                &&& after.queued() == m.queued()
                &&& after.head == (if leaves {
                    (m.head.0 + 1, 0int)
                } else {
                    m.head
                })
            }
            &&& after.slots.len() == m.slots.len()
            &&& forall|t: int|
                0 <= t < m.slots.len() && t != m.received() ==> #[trigger] after.slots[t]
                    == m.slots[t]
            &&& after.pending.len() == m.pending.len()
            &&& forall|b: int|
                0 <= b < m.pending.len() ==> #[trigger] after.pending[b] == m.pending[b] + (if leaves
                    && b == m.head.0 - 1 {
                    1int
                } else {
                    0
                })
            &&& after.tail == m.tail
            &&& after.closed == m.closed
            &&& after.parker == m.parker
            &&& after.blocks == m.blocks
            &&& after.issued == m.issued
        }),
{
    crate::state::lemma_with_read(m);
    if m.received() < m.issued {
        assert(m.queued()[0] is Some <==> m.slots[m.received()] is Full);
    }
}

/// What a hang-up changes. That of the last sender is shown to the receiver, which is notified;
/// that of the receiver is shown to the senders. Neither changes a message, a slot or a count.
pub proof fn law_hang_up_effect<T>(m: QueueState<T>, is_sender: bool)
    ensures
        ({
            let after = m.with_hang_up(is_sender);
            &&& after.queued() == m.queued()
            &&& after.slots == m.slots && after.pending == m.pending && after.head == m.head
            &&& after.blocks == m.blocks && after.issued == m.issued
            &&& is_sender ==> {
                &&& after.closed
                &&& after.tail == m.tail
                &&& after.parker.state == (if m.parker.state == ParkState::Closed {
                    ParkState::Closed
                } else {
                    ParkState::Notified
                })
                &&& after.parker.wake == (m.parker.wake || m.parker.state == ParkState::Parked)
            }
            &&& !is_sender ==> {
                &&& after.tail is None
                &&& after.closed == m.closed
                &&& after.parker == m.parker
            }
        }),
{
    assert(m.with_hang_up(is_sender).queued() =~= m.queued());
}

/// Room is asked for only where it is needed: none after the receiver has hung up; otherwise an
/// index of the tail below the largest, and an address for a block only where the tail has no slot
/// left and no block stands behind it. A send that comes to a block with another one behind it
/// needs no address.
pub proof fn law_needed_room<T>(m: QueueState<T>, n: int, i: int, block: usize)
    ensures
        m.tail is None ==> m.has_room(),
        m.tail == Some((n, i)) && n > 0 && i < 256 ==> m.has_room(),
        m.tail == Some((n, i)) && n < m.blocks && i < 2047 ==> m.has_room(),
        m.tail == Some((n, i)) && i < 2047 && 4096 * (m.blocks + 2) <= usize::MAX ==> m.has_room(),
        m.tail is None || m.tail == Some((n, i)) && i < 2047 ==> m.can_claim(),
        4096 * (m.blocks + 2) <= usize::MAX ==> m.can_grow() && m.can_link(block),
        0 < crate::state::number(block) < m.blocks && 4096 * (m.blocks + 1) <= usize::MAX
            ==> m.can_link(block),
{
}

/// What the halves of a channel are told is what the queue says: a message for a message, a
/// message back for a message back, nothing for nothing, a hang-up for a hang-up, a timeout for
/// nothing in time. What a thread does next is passed on as it is.
pub proof fn law_reports<T, D>(value: T, timeout: D)
    ensures
        crate::channel::send_report(Ok::<(), T>(())) == Ok::<(), SendError<T>>(()),
        crate::channel::send_report(Err::<(), T>(value)) == Err::<(), SendError<T>>(
            SendError(value),
        ),
        crate::channel::try_recv_report(Ok::<Option<T>, ()>(Some(value))) == Ok::<T, TryRecvError>(
            value,
        ),
        crate::channel::try_recv_report(Ok::<Option<T>, ()>(None)) == Err::<T, TryRecvError>(
            TryRecvError::Empty,
        ),
        crate::channel::try_recv_report(Err::<Option<T>, ()>(())) == Err::<T, TryRecvError>(
            TryRecvError::Disconnected,
        ),
        crate::channel::recv_report(RecvRound::Done(Ok::<T, ()>(value))) == RecvRound::Done(
            Ok::<T, RecvError>(value),
        ),
        crate::channel::recv_report(RecvRound::Done(Err::<T, ()>(()))) == RecvRound::Done(
            Err::<T, RecvError>(RecvError),
        ),
        crate::channel::recv_report(RecvRound::<Result<T, ()>>::Spin) is Spin,
        crate::channel::recv_report(RecvRound::<Result<T, ()>>::Sleep) is Sleep,
        crate::channel::recv_report(RecvRound::<Result<T, ()>>::Again) is Again,
        crate::channel::recv_timeout_report(
            TimedRound::<Result<Option<T>, ()>, D>::Done(Ok(Some(value))),
        ) == TimedRound::<Result<T, RecvTimeoutError>, D>::Done(Ok(value)),
        crate::channel::recv_timeout_report(
            TimedRound::<Result<Option<T>, ()>, D>::Done(Ok(None)),
        ) == TimedRound::<Result<T, RecvTimeoutError>, D>::Done(Err(RecvTimeoutError::Timeout)),
        crate::channel::recv_timeout_report(
            TimedRound::<Result<Option<T>, ()>, D>::Done(Err(())),
        ) == TimedRound::<Result<T, RecvTimeoutError>, D>::Done(
            Err(RecvTimeoutError::Disconnected),
        ),
        crate::channel::recv_timeout_report(
            TimedRound::<Result<Option<T>, ()>, D>::Sleep(timeout),
        ) == TimedRound::<Result<T, RecvTimeoutError>, D>::Sleep(timeout),
        crate::channel::recv_timeout_report(
            TimedRound::<Result<Option<T>, ()>, D>::Again,
        ) is Again,
{
}

/// A sender that hangs up while another one is left, or after the receiver has, changes nothing in
/// the queue. The last sender closes a channel that still has a receiver, and changes nothing else
/// than to notify it. A clone, and a receiver that hangs up, leave the other halves as they are.
pub proof fn law_halves<T>(before: Shared<T>, after: Shared<T>)
    requires
        before.wf(),
    ensures
        Shared::sender_dropped(before, after) ==> {
            &&& after.senders() == before.senders() - 1
            &&& after.senders() > 0 || before@.tail is None ==> after@ == before@
            &&& after.senders() == 0 && before@.tail is Some ==> {
                &&& after@.closed
                &&& after@.tail == before@.tail
                &&& after@.slots == before@.slots && after@.issued == before@.issued
                &&& after@.head == before@.head && after@.pending == before@.pending
                &&& after@.parker.state != ParkState::Parked
            }
        },
        Shared::sender_cloned(before, after) ==> after.senders() == before.senders() + 1 && after@
            == before@,
        Shared::receiver_dropped(before, after) ==> {
            &&& after.senders() == before.senders()
            &&& after@.tail is None
            &&& after@.closed == before@.closed
            &&& after@.slots == before@.slots && after@.head == before@.head
        },
        before.handles() == before.senders() + (if before@.tail is Some {
            1int
        } else {
            0
        }),
{
}

} // verus!
