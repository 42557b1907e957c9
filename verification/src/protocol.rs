//! Any number of sends and one receiver at work on one queue, access by access, in any order.

use crate::block::SlotState;
use crate::parker::{ParkState, Parker};
use crate::state::{QueueState, RecvPhase, RecvState, SendPhase, SendState};
use vstd::prelude::*;

verus! {

/// A count that a send owes to a block: for the senders that came to block `block` when it was
/// used up, or, where `first` is set, for the one that moved the tail to the first block.
pub struct Debt {
    pub first: bool,
    pub block: int,
}

/// A queue with everything that works on it, and what has happened so far.
pub struct World<T> {
    /// The memory of the queue.
    pub memory: QueueState<T>,
    /// The sends that have begun.
    pub sends: Map<int, SendState<T>>,
    /// The message that each send was given.
    pub messages: Map<int, T>,
    /// The ticket of each send that has one.
    pub tickets: Map<int, int>,
    /// For each ticket, the send that has it.
    pub owner: Seq<int>,
    /// For each ticket, its message.
    pub log: Seq<T>,
    /// The last receive of the receiver.
    pub recv: RecvState<T>,
    /// The messages that have been received.
    pub received: Seq<T>,
    /// Whether the receiver sleeps.
    pub asleep: bool,
    /// Whether somebody has set out to wake the sleeping receiver after it was notified.
    pub called: bool,
    /// For each block, how many sends came to it when it was used up; for block 0, how many came
    /// when there was no block.
    pub over: Seq<int>,
    /// For each block, how many of them have counted themselves as done with it.
    pub losers: Seq<int>,
    /// The sends that owe a count.
    pub debts: Map<int, Debt>,
    /// The counts that have been paid.
    pub paid: Set<Debt>,
}

/// What happens next.
pub enum Step<T> {
    /// A thread begins to send a message.
    Begin { id: int, value: T },
    /// A send makes its next access.
    Send { id: int },
    /// A send fails to move the tail although the tail has not changed, as the weak form of the
    /// access may.
    Miss { id: int },
    /// The receiver begins to look for a message.
    Receive,
    /// The receiver makes its next access.
    Read,
    /// The receiver asks to sleep, having found nothing.
    Park,
    /// The receiver has slept enough, or has been woken, and looks again.
    Resume,
    /// Somebody takes the request to wake the receiver, if there is one, and sets out to do so.
    TakeWake,
    /// The last sender hangs up.
    CloseSenders,
    /// The receiver hangs up.
    CloseReceiver,
}

/// The phases in which a send has a ticket.
pub open spec fn has_ticket(phase: SendPhase) -> bool {
    match phase {
        SendPhase::Store { .. } => true,
        SendPhase::Wake { .. } => true,
        SendPhase::Settle { .. } => true,
        SendPhase::Sent => true,
        _ => false,
    }
}

impl<T> World<T> {
    /// A new queue.
    pub open spec fn start() -> World<T> {
        World {
            memory: QueueState::empty(),
            sends: Map::empty(),
            messages: Map::empty(),
            tickets: Map::empty(),
            owner: Seq::empty(),
            log: Seq::empty(),
            recv: RecvState { phase: RecvPhase::Done, closed: false, value: None },
            received: Seq::empty(),
            asleep: false,
            called: false,
            over: seq![0int],
            losers: seq![0int],
            debts: Map::empty(),
            paid: Set::empty(),
        }
    }

    /// The receiver has looked and found nothing, and has not begun to look again.
    pub open spec fn idle(self) -> bool {
        self.recv.phase is Done && self.recv.value is None
    }

    /// When a step can happen. A send goes on only where the memory has room for it. The last
    /// sender hangs up when its sends are over, since a send borrows the sender that makes it.
    pub open spec fn enabled(self, step: Step<T>) -> bool {
        match step {
            Step::Begin { id, value } => !self.sends.contains_key(id) && !self.memory.closed,
            Step::Send { id } => {
                &&& self.sends.contains_key(id)
                &&& !self.sends[id].over()
                &&& self.sends[id].phase is Claim ==> self.memory.can_claim()
                &&& self.sends[id].phase matches SendPhase::Link { block } ==> self.memory.can_link(
                    block,
                )
            },
            Step::Miss { id } => self.sends.contains_key(id) && self.sends[id].phase is Swing,
            Step::Receive => {
                &&& self.memory.tail is Some
                &&& self.recv.phase is Done
                &&& !self.asleep
            },
            Step::Read => !(self.recv.phase is Done),
            Step::Park => {
                &&& self.memory.tail is Some
                &&& self.idle()
                &&& !self.recv.closed
                &&& !self.asleep
            },
            Step::Resume => self.asleep,
            Step::TakeWake => true,
            Step::CloseSenders => {
                &&& !self.memory.closed
                &&& forall|id: int| self.sends.contains_key(id) ==> (#[trigger] self.sends[id]).over()
            },
            Step::CloseReceiver => {
                &&& self.memory.tail is Some
                &&& self.recv.phase is Done
                &&& !self.asleep
            },
        }
    }

    /// The world after send `id` has made its next access.
    pub open spec fn after_send(self, id: int) -> World<T> {
        let m = self.memory;
        let s = self.sends[id];
        let (memory, then, signal) = crate::state::send_next(m, s);
        let claims = memory.issued > m.issued;
        let grows = memory.blocks > m.blocks;
        let over = match (s.phase, then.phase) {
            (SendPhase::Claim, SendPhase::LoadLink { block }) => {
                let n = crate::state::number(block);
                self.over.update(n, self.over[n] + 1)
            },
            _ => if grows {
                self.over.push(0)
            } else {
                self.over
            },
        };
        let losers = match s.phase {
            SendPhase::Discard { block } => {
                let n = crate::state::number(block);
                self.losers.update(n, self.losers[n] + 1)
            },
            _ => if grows {
                self.losers.push(0)
            } else {
                self.losers
            },
        };
        let debts = match s.phase {
            SendPhase::Swing { block, .. } => if claims {
                self.debts.insert(
                    id,
                    if block != 0 {
                        Debt { first: false, block: crate::state::number(block) }
                    } else {
                        Debt { first: true, block: 1 }
                    },
                )
            } else {
                self.debts
            },
            SendPhase::Settle { .. } => self.debts.remove(id),
            _ => self.debts,
        };
        World {
            memory,
            sends: self.sends.insert(id, then),
            tickets: if claims {
                self.tickets.insert(id, m.issued)
            } else {
                self.tickets
            },
            owner: if claims {
                self.owner.push(id)
            } else {
                self.owner
            },
            log: if claims {
                self.log.push(s.value->0)
            } else {
                self.log
            },
            over,
            losers,
            debts,
            paid: if s.phase is Settle {
                self.paid.insert(self.debts[id])
            } else {
                self.paid
            },
            ..self
        }
    }

    /// The world after a step.
    pub open spec fn after(self, step: Step<T>) -> World<T> {
        let m = self.memory;
        match step {
            Step::Begin { id, value } => World {
                sends: self.sends.insert(id, SendState::begun(value)),
                messages: self.messages.insert(id, value),
                ..self
            },
            Step::Send { id } => self.after_send(id),
            Step::Miss { id } => {
                let s = self.sends[id];
                let phase = match s.phase {
                    SendPhase::Swing { block, next, .. } => SendPhase::LoadTail { block, next },
                    _ => s.phase,
                };
                World { sends: self.sends.insert(id, SendState { phase, value: s.value }), ..self }
            },
            Step::Receive => World { recv: RecvState::begun(), ..self },
            Step::Read => {
                let (memory, recv) = crate::state::recv_next(m, self.recv);
                World {
                    memory,
                    recv,
                    received: match recv.value {
                        Some(value) => self.received.push(value),
                        None => self.received,
                    },
                    ..self
                }
            },
            Step::Park => {
                let memory = QueueState { parker: crate::parker::parked(m.parker), ..m };
                if memory.parker.state == ParkState::Parked {
                    World { memory, asleep: true, called: false, ..self }
                } else {
                    World { memory, recv: RecvState::begun(), ..self }
                }
            },
            Step::Resume => World {
                memory: crate::wait::awake(m),
                recv: RecvState::begun(),
                asleep: false,
                called: false,
                ..self
            },
            Step::TakeWake => World {
                memory: QueueState { parker: Parker { wake: false, ..m.parker }, ..m },
                called: self.called || self.asleep && m.parker.wake && m.parker.state
                    != ParkState::Parked,
                ..self
            },
            Step::CloseSenders => World { memory: m.with_hang_up(true), ..self },
            Step::CloseReceiver => World { memory: m.with_hang_up(false), ..self },
        }
    }

    /// What holds of one send.
    pub open spec fn send_inv(self, id: int) -> bool {
        let s = self.sends[id];
        &&& self.messages.contains_key(id)
        &&& s.stands(self.memory)
        &&& s.value is Some ==> s.value == Some(self.messages[id])
        &&& has_ticket(s.phase) <==> self.tickets.contains_key(id)
        &&& s.phase is Refused ==> self.memory.tail is None
        &&& self.tickets.contains_key(id) ==> {
            let t = self.tickets[id];
            &&& 0 <= t < self.memory.issued
            &&& self.owner[t] == id
            &&& self.log[t] == self.messages[id]
            &&& match s.phase {
                SendPhase::Store { block, index, .. } => {
                    QueueState::<T>::ticket(block, index) == t
                },
                _ => !(self.memory.slots[t] is Vacant),
            }
        }
    }

    /// What holds of the sends and of the claimed slots.
    pub open spec fn sends_inv(self) -> bool {
        &&& forall|id: int| #[trigger] self.sends.contains_key(id) ==> self.send_inv(id)
        &&& forall|id: int| #[trigger]
            self.tickets.contains_key(id) ==> self.sends.contains_key(id)
        &&& self.owner.len() == self.memory.issued
        &&& self.log.len() == self.memory.issued
        &&& forall|t: int|
            0 <= t < self.memory.issued ==> {
                &&& self.sends.contains_key(#[trigger] self.owner[t])
                &&& self.tickets.contains_key(self.owner[t])
                &&& self.tickets[self.owner[t]] == t
            }
        &&& forall|t: int|
            0 <= t < self.memory.issued ==> {
                (#[trigger] self.memory.slots[t]) matches SlotState::Full(value) ==> value
                    == self.log[t]
            }
    }

    /// What holds of the receiver.
    pub open spec fn recv_inv(self) -> bool {
        &&& self.recv.ok(self.memory)
        &&& self.received == self.log.take(self.memory.received())
        &&& self.recv.closed ==> self.memory.closed
        &&& self.memory.closed ==> forall|id: int|
            self.sends.contains_key(id) ==> (#[trigger] self.sends[id]).over()
        &&& self.idle() && self.recv.closed ==> self.memory.received() == self.memory.issued
    }

    /// Some send is about to notify the receiver.
    pub open spec fn waking(self) -> bool {
        exists|id: int| #[trigger] self.sends.contains_key(id) && self.sends[id].phase is Wake
    }

    /// No notification has reached the receiver that it has not seen.
    pub open spec fn unnotified(self) -> bool {
        self.memory.parker.state == ParkState::Empty || self.memory.parker.state
            == ParkState::Parked
    }

    /// A receiver that has found nothing, and that no notification has reached since, has
    /// nothing to find, or some send is about to notify it.
    pub open spec fn wake_inv(self) -> bool {
        &&& !(self.recv.phase is Check) && self.recv.value is None && self.unnotified()
            ==> self.memory.closed == self.recv.closed
        &&& self.idle() && self.unnotified() && self.memory.front() is Some ==> self.waking()
    }

    /// The receiver is registered as long as it sleeps, and a notification that reaches it in its
    /// sleep leaves a request to wake it, until somebody takes the request.
    pub open spec fn sleep_inv(self) -> bool {
        &&& self.memory.parker.state != ParkState::Closed
        &&& self.memory.parker.state == ParkState::Parked ==> self.asleep
        &&& self.asleep ==> {
            &&& self.idle()
            &&& !self.recv.closed
            &&& self.memory.tail is Some
            &&& self.memory.parker.state == ParkState::Parked || self.memory.parker.state
                == ParkState::Notified
            &&& self.memory.parker.state == ParkState::Notified ==> self.memory.parker.wake
                || self.called
        }
    }
}

/// What a send knows still holds of it after its own access.
pub proof fn lemma_own_access<T>(m: QueueState<T>, s: SendState<T>)
    requires
        m.wf(),
        s.ready(m),
    ensures
        crate::state::send_next(m, s).1.stands(crate::state::send_next(m, s).0),
{
    match s.phase {
        SendPhase::LoadTail { block, next } => {
            if let Some((n, i)) = m.tail {
                let tail = (4096 * n + 2 * i) as usize;
                assert(4096 * (n + 1) <= usize::MAX);
                assert(crate::state::number(tail) == n);
                assert(crate::block::index_of(tail as int) == i);
            }
        },
        _ => {
            crate::state::lemma_send_next_wf(m, s);
        },
    }
}

/// What a send knows still holds of it after an access of another send, as long as the two do
/// not share a slot.
pub proof fn lemma_other_access<T>(m: QueueState<T>, s: SendState<T>, other: SendState<T>)
    requires
        m.wf(),
        s.ready(m),
        other.stands(m),
        s.phase is Store && other.phase is Store ==> QueueState::<T>::ticket(
            s.phase->Store_block,
            s.phase->Store_index,
        ) != QueueState::<T>::ticket(other.phase->Store_block, other.phase->Store_index),
    ensures
        other.stands(crate::state::send_next(m, s).0),
{
    crate::state::lemma_send_next_wf(m, s);
}

/// What a send knows still holds of it after an access of the receiver.
pub proof fn lemma_recv_access<T>(m: QueueState<T>, r: RecvState<T>, other: SendState<T>)
    requires
        m.wf(),
        r.ok(m),
        other.stands(m),
    ensures
        other.stands(crate::state::recv_next(m, r).0),
{
    crate::state::lemma_recv_next_wf(m, r);
}

impl<T> World<T> {
    /// What holds of the memory, the sends and the receiver at all times, apart from the counts.
    pub open spec fn core_inv(self) -> bool {
        &&& self.memory.wf()
        &&& self.sends.dom().finite()
        &&& self.sends_inv()
        &&& self.recv_inv()
        &&& self.wake_inv()
        &&& self.sleep_inv()
    }
}

/// An access of a send other than the one that writes its message does not bring a message to
/// the front.
proof fn lemma_front<T>(m: QueueState<T>, s: SendState<T>)
    requires
        m.wf(),
        s.ready(m),
        !(s.phase is Store),
    ensures
        crate::state::send_next(m, s).0.front() is Some ==> m.front() is Some,
{
    crate::state::lemma_send_next_wf(m, s);
    let after = crate::state::send_next(m, s).0;
    if after.front() is Some {
        assert(after.slots[after.received()] is Full);
        assert(m.received() == after.received());
        assert(m.received() < m.slots.len());
        assert(m.slots[m.received()] is Full);
        assert(m.received() < m.issued);
        assert(m.queued()[0] is Some);
    }
}

proof fn lemma_send_keeps_sends<T>(w: World<T>, id: int)
    requires
        w.core_inv(),
        w.enabled(Step::Send { id }),
        w.sends[id].ready(w.memory),
    ensures
        w.after_send(id).sends_inv(),
        w.after_send(id).memory.wf(),
{
    let after = w.after_send(id);
    let s = w.sends[id];
    assert(w.send_inv(id));
    crate::state::lemma_send_next_wf(w.memory, s);
    lemma_own_access(w.memory, s);
    assert forall|other: int| #[trigger] after.sends.contains_key(other) implies after.send_inv(
        other,
    ) by {
        if other != id {
            assert(w.sends.contains_key(other));
            assert(w.send_inv(other));
            lemma_other_access(w.memory, s, w.sends[other]);
        }
    }
}

proof fn lemma_send_keeps_recv<T>(w: World<T>, id: int)
    requires
        w.core_inv(),
        w.enabled(Step::Send { id }),
        w.sends[id].ready(w.memory),
    ensures
        w.after_send(id).recv_inv(),
        w.after_send(id).wake_inv(),
        w.after_send(id).sleep_inv(),
{
    let after = w.after_send(id);
    let s = w.sends[id];
    assert(w.send_inv(id));
    crate::state::lemma_send_next_wf(w.memory, s);
    assert(after.memory.received() == w.memory.received());
    assert(after.received =~= after.log.take(after.memory.received()));
    if !(s.phase is Store) {
        lemma_front(w.memory, s);
        if after.idle() && after.unnotified() && after.memory.front() is Some {
            assert(w.waking());
            let other = choose|other: int| #[trigger]
                w.sends.contains_key(other) && w.sends[other].phase is Wake;
            assert(other != id);
            assert(after.sends.contains_key(other));
        }
    } else {
        assert(after.sends.contains_key(id));
    }
}

proof fn lemma_read_keeps<T>(w: World<T>)
    requires
        w.core_inv(),
        w.enabled(Step::Read),
    ensures
        w.after(Step::Read).core_inv(),
{
    let after = w.after(Step::Read);
    crate::state::lemma_recv_next_wf(w.memory, w.recv);
    assert forall|id: int| #[trigger] after.sends.contains_key(id) implies after.send_inv(id) by {
        assert(w.send_inv(id));
        lemma_recv_access(w.memory, w.recv, w.sends[id]);
    }
    if after.recv.phase is Done && after.recv.value is None {
        assert(after.memory.front() is None);
        if after.recv.closed && after.memory.received() < after.memory.issued {
            let t = after.memory.received();
            let id = w.owner[t];
            assert(w.send_inv(id));
            assert(w.sends[id].over());
            assert(after.memory.slots[t] is Full);
            assert(after.memory.queued()[0] is Some);
        }
    }
    assert(after.received =~= after.log.take(after.memory.received()));
}

proof fn lemma_begin_keeps<T>(w: World<T>, id: int, value: T)
    requires
        w.core_inv(),
        w.enabled(Step::Begin { id, value }),
    ensures
        w.after(Step::Begin { id, value }).core_inv(),
{
    let after = w.after(Step::Begin { id, value });
    assert(!w.tickets.contains_key(id));
    assert forall|other: int| #[trigger] after.sends.contains_key(other) implies after.send_inv(
        other,
    ) by {
        if other != id {
            assert(w.sends.contains_key(other));
        }
    }
    if w.waking() {
        let other = choose|other: int| #[trigger]
            w.sends.contains_key(other) && w.sends[other].phase is Wake;
        assert(after.sends.contains_key(other));
    }
}

proof fn lemma_miss_keeps<T>(w: World<T>, id: int)
    requires
        w.core_inv(),
        w.enabled(Step::Miss { id }),
    ensures
        w.after(Step::Miss { id }).core_inv(),
{
    let after = w.after(Step::Miss { id });
    assert(w.send_inv(id));
    assert forall|other: int| #[trigger] after.sends.contains_key(other) implies after.send_inv(
        other,
    ) by {
        assert(w.sends.contains_key(other));
        assert(w.send_inv(other));
    }
    if w.waking() {
        let other = choose|other: int| #[trigger]
            w.sends.contains_key(other) && w.sends[other].phase is Wake;
        assert(after.sends.contains_key(other));
    }
}

/// Whether a step leaves the sends alone and touches no more of the memory than the tail, the
/// flag of the senders and the parker.
spec fn outside<T>(step: Step<T>) -> bool {
    !(step is Begin || step is Send || step is Miss || step is Read)
}

/// What holds of the memory, and what a send knows of it, does not depend on the flag of the
/// senders and on the parker, and still holds when the receiver has hung up.
proof fn lemma_outside_memory<T>(m: QueueState<T>, after: QueueState<T>)
    requires
        m.wf(),
        after == (QueueState {
            tail: after.tail,
            closed: after.closed,
            parker: after.parker,
            ..m
        }),
        after.tail == m.tail || after.tail is None,
    ensures
        after.wf(),
        after.front() == m.front(),
        forall|s: SendState<T>| #[trigger] s.stands(m) ==> s.stands(after),
{
    assert(after.queued() =~= m.queued());
}

proof fn lemma_outside_keeps_sends<T>(w: World<T>, step: Step<T>)
    requires
        w.core_inv(),
        w.enabled(step),
        outside(step),
    ensures
        w.after(step).memory.wf(),
        w.after(step).sends_inv(),
        w.after(step).memory.front() == w.memory.front(),
        w.after(step).waking() == w.waking(),
{
    let after = w.after(step);
    lemma_outside_memory(w.memory, after.memory);
    assert forall|id: int| #[trigger] after.sends.contains_key(id) implies after.send_inv(id) by {
        assert(w.sends.contains_key(id));
        assert(w.send_inv(id));
    }
}

proof fn lemma_outside_keeps<T>(w: World<T>, step: Step<T>)
    requires
        w.core_inv(),
        w.enabled(step),
        outside(step),
    ensures
        w.after(step).core_inv(),
{
    lemma_outside_keeps_sends(w, step);
}

/// Every step keeps what holds of the memory, the sends and the receiver.
pub proof fn lemma_step_keeps<T>(w: World<T>, step: Step<T>)
    requires
        w.core_inv(),
        w.count_inv(),
        w.enabled(step),
    ensures
        w.after(step).core_inv(),
{
    match step {
        Step::Begin { id, value } => {
            lemma_begin_keeps(w, id, value);
        },
        Step::Send { id } => {
            assert(w.send_inv(id));
            crate::counts::lemma_can_count(w, id);
            lemma_send_keeps_sends(w, id);
            lemma_send_keeps_recv(w, id);
        },
        Step::Read => {
            lemma_read_keeps(w);
        },
        Step::Miss { id } => {
            lemma_miss_keeps(w, id);
        },
        _ => {
            lemma_outside_keeps(w, step);
        },
    }
}

} // verus!
