//! What the queue promises, whatever the order in which sends and the receiver make their
//! accesses.

use crate::parker::ParkState;
use crate::protocol::{Step, World};
use crate::state::{QueueState, SendPhase, SendState};
use vstd::prelude::*;

verus! {

impl<T> World<T> {
    /// What holds of a queue and of everything that works on it, at all times.
    pub open spec fn inv(self) -> bool {
        self.core_inv() && self.count_inv()
    }

    /// The world after a row of steps from the start.
    pub open spec fn run(steps: Seq<Step<T>>) -> World<T>
        decreases steps.len(),
    {
        if steps.len() == 0 {
            World::start()
        } else {
            World::run(steps.drop_last()).after(steps.last())
        }
    }

    /// Each step of the row can happen when its turn comes.
    pub open spec fn can_run(steps: Seq<Step<T>>) -> bool
        decreases steps.len(),
    {
        steps.len() > 0 ==> {
            &&& World::can_run(steps.drop_last())
            &&& World::run(steps.drop_last()).enabled(steps.last())
        }
    }

    /// The sends that are not over.
    pub open spec fn in_flight(self) -> Set<int> {
        self.sends.dom().filter(|id: int| !self.sends[id].over())
    }
}

/// A new queue is in order.
pub proof fn law_start<T>()
    ensures
        World::<T>::start().inv(),
{
    let w = World::<T>::start();
    assert(w.waiting(0) =~= Set::empty());
    assert(w.received =~= w.log.take(0));
}

/// Every step keeps the queue in order.
pub proof fn law_step<T>(w: World<T>, step: Step<T>)
    requires
        w.inv(),
        w.enabled(step),
    ensures
        w.after(step).inv(),
{
    crate::protocol::lemma_step_keeps(w, step);
    crate::counts::lemma_step_keeps_counts(w, step);
}

/// Whatever happens, in whatever order, the queue stays in order.
pub proof fn law_always<T>(steps: Seq<Step<T>>)
    requires
        World::can_run(steps),
    ensures
        World::run(steps).inv(),
    decreases steps.len(),
{
    if steps.len() == 0 {
        law_start::<T>();
    } else {
        law_always(steps.drop_last());
        law_step(World::run(steps.drop_last()), steps.last());
    }
}

/// A send that is under way may always make its next access, as far as there is room for it: the
/// memory it is about to touch is there.
pub proof fn law_access<T>(w: World<T>, id: int)
    requires
        w.inv(),
        w.enabled(Step::Send { id }),
    ensures
        w.sends[id].ready(w.memory),
{
    assert(w.send_inv(id));
    crate::counts::lemma_can_count(w, id);
}

/// Messages are received in the order of their tickets: what has been received is the beginning
/// of what has been sent. What is left is queued, in the same order; a place in the queue is
/// empty only while the send that has its ticket has not written its message.
pub proof fn law_fifo<T>(w: World<T>)
    requires
        w.inv(),
    ensures
        w.received == w.log.take(w.received.len() as int),
        w.log.len() == w.received.len() + w.memory.queued().len(),
        forall|j: int|
            0 <= j < w.memory.queued().len() ==> match #[trigger] w.memory.queued()[j] {
                Some(value) => value == w.log[w.received.len() + j],
                None => {
                    let id = w.owner[w.received.len() + j];
                    w.sends.contains_key(id) && w.sends[id].phase is Store
                },
            },
{
    assert(w.received.len() == w.memory.received());
    assert forall|j: int| 0 <= j < w.memory.queued().len() implies match #[trigger] w.memory.queued()[j] {
        Some(value) => value == w.log[w.received.len() + j],
        None => {
            let id = w.owner[w.received.len() + j];
            w.sends.contains_key(id) && w.sends[id].phase is Store
        },
    } by {
        let t = w.memory.received() + j;
        assert(w.sends.contains_key(w.owner[t]));
        assert(w.send_inv(w.owner[t]));
        assert(!(w.memory.slots[t] is Taken));
    }
}

/// Nothing is received that was not sent, and nothing is received twice: each received message is
/// that of a send of its own.
pub proof fn law_received_once<T>(w: World<T>)
    requires
        w.inv(),
    ensures
        forall|t: int|
            0 <= t < w.received.len() ==> {
                let id = w.owner[t];
                &&& w.sends.contains_key(id)
                &&& #[trigger] w.received[t] == w.messages[id]
                &&& w.tickets[id] == t
            },
        forall|t: int, u: int|
            0 <= t < u < w.received.len() ==> #[trigger] w.owner[t] != #[trigger] w.owner[u],
{
    assert forall|t: int| 0 <= t < w.received.len() implies {
        let id = w.owner[t];
        &&& w.sends.contains_key(id)
        &&& #[trigger] w.received[t] == w.messages[id]
        &&& w.tickets[id] == t
    } by {
        assert(w.sends.contains_key(w.owner[t]));
        assert(w.send_inv(w.owner[t]));
    }
}

/// What has been sent is never changed, only added to, and so is what has been received. A send
/// keeps its ticket.
pub proof fn law_history<T>(w: World<T>, step: Step<T>)
    requires
        w.inv(),
        w.enabled(step),
    ensures
        w.log == w.after(step).log.take(w.log.len() as int),
        w.received == w.after(step).received.take(w.received.len() as int),
        forall|id: int|
            w.tickets.contains_key(id) ==> {
                &&& #[trigger] w.after(step).tickets.contains_key(id)
                &&& w.after(step).tickets[id] == w.tickets[id]
            },
{
    let after = w.after(step);
    if let Step::Send { id } = step {
        assert(w.send_inv(id));
    }
    assert(w.log =~= after.log.take(w.log.len() as int));
    assert(w.received =~= after.received.take(w.received.len() as int));
}

/// Tickets follow real time: a send that gets its ticket now comes behind every send that has
/// one already. So a send that began after another one was over comes behind it.
pub proof fn law_order<T>(w: World<T>, step: Step<T>, id: int, other: int)
    requires
        w.inv(),
        w.enabled(step),
        !w.tickets.contains_key(id),
        w.after(step).tickets.contains_key(id),
        w.tickets.contains_key(other),
    ensures
        w.tickets[other] < w.after(step).tickets[id],
        w.after(step).tickets[other] == w.tickets[other],
{
    assert(w.sends.contains_key(other));
    assert(w.send_inv(other));
    if let Step::Send { id: sender } = step {
        assert(w.send_inv(sender));
    }
}

/// A send that succeeded has its message in the history, under a ticket that no other send has:
/// the message has been received, or it is queued.
pub proof fn law_sent<T>(w: World<T>, id: int)
    requires
        w.inv(),
        w.sends.contains_key(id),
        w.sends[id].phase is Sent,
    ensures
        w.tickets.contains_key(id),
        w.log[w.tickets[id]] == w.messages[id],
        forall|other: int|
            other != id && w.tickets.contains_key(other) ==> #[trigger] w.tickets[other]
                != w.tickets[id],
        w.tickets[id] < w.received.len() || w.memory.queued()[w.tickets[id] - w.received.len()]
            == Some(w.messages[id]),
{
    assert(w.send_inv(id));
    let t = w.tickets[id];
    assert forall|other: int| other != id && w.tickets.contains_key(other) implies #[trigger] w.tickets[other]
        != t by {
        assert(w.sends.contains_key(other));
        assert(w.send_inv(other));
    }
    if t >= w.memory.received() {
        assert(!(w.memory.slots[t] is Taken));
        assert(w.memory.slots[t] is Full);
    }
}

/// A send fails only when the receiver has hung up. It gives its message back, and the message
/// is not part of the history.
pub proof fn law_refused<T>(w: World<T>, id: int)
    requires
        w.inv(),
        w.sends.contains_key(id),
        w.sends[id].phase is Refused,
    ensures
        w.memory.tail is None,
        w.sends[id].value == Some(w.messages[id]),
        !w.tickets.contains_key(id),
{
    assert(w.send_inv(id));
}

/// What a send that is over returns: success where its message has a ticket, and otherwise the
/// very message that it was given, which no other part of the queue has.
pub proof fn law_send_result<T>(w: World<T>, id: int)
    requires
        w.inv(),
        w.sends.contains_key(id),
        w.sends[id].over(),
    ensures
        w.sends[id].result() is Ok <==> w.tickets.contains_key(id),
        w.sends[id].result() is Ok ==> w.log[w.tickets[id]] == w.messages[id],
        w.sends[id].result() is Err ==> w.memory.tail is None && w.sends[id].result() == Err::<
            (),
            T,
        >(w.messages[id]),
{
    assert(w.send_inv(id));
}

/// What a receive that is over returns: a message, which is the last that has been received; or
/// that the senders have hung up, after every message has been received; or nothing.
pub proof fn law_recv_result<T>(w: World<T>)
    requires
        w.inv(),
        w.recv.phase is Done,
    ensures
        w.recv.result() matches Ok(Some(value)) ==> w.recv.value == Some(value),
        w.recv.value is Some <==> w.recv.result() matches Ok(Some(_)),
        w.recv.result() is Err <==> w.recv.value is None && w.recv.closed,
        w.recv.result() is Err ==> w.memory.closed && w.received == w.log,
{
    if w.recv.result() is Err {
        law_disconnected(w);
    }
}

/// An access of the receiver that ends a receive with a message adds that message to what has been
/// received, and it is the next one of what has been sent; no other access adds anything.
pub proof fn law_read_gives_next<T>(w: World<T>)
    requires
        w.inv(),
        w.enabled(Step::Read),
    ensures
        ({
            let after = w.after(Step::Read);
            match after.recv.value {
                Some(value) => {
                    &&& after.recv.phase is Done
                    &&& value == w.log[w.received.len() as int]
                    &&& after.received == w.received.push(value)
                },
                None => after.received == w.received,
            }
        }),
{
    law_step(w, Step::Read);
    law_fifo(w);
    let after = w.after(Step::Read);
    law_fifo(after);
    if after.recv.value is Some {
        assert(after.received[w.received.len() as int] == after.log[w.received.len() as int]);
    }
}

/// A send that begins after the receiver has hung up fails at its first access.
pub proof fn law_hung_up<T>(w: World<T>, id: int)
    requires
        w.inv(),
        w.memory.tail is None,
        w.sends.contains_key(id),
        w.sends[id].phase is Claim,
    ensures
        w.after(Step::Send { id }).sends[id].phase is Refused,
        w.after(Step::Send { id }).log == w.log,
{
}

/// A receiver that is told that the senders have hung up has received every message: none is
/// queued, and none is on its way.
pub proof fn law_disconnected<T>(w: World<T>)
    requires
        w.inv(),
        w.idle(),
        w.recv.closed,
    ensures
        w.memory.closed,
        w.received == w.log,
        w.memory.queued().len() == 0,
        forall|id: int| w.sends.contains_key(id) ==> (#[trigger] w.sends[id]).over(),
{
    assert(w.received =~= w.log);
}

/// No notification is lost: while the receiver sleeps and nobody is about to wake it, there is no
/// message for it, and the senders have not hung up. About to wake it is a send that is about to
/// notify it, whoever is to take a request to wake it, and whoever has taken one.
pub proof fn law_no_lost_wakeup<T>(w: World<T>)
    requires
        w.inv(),
        w.asleep,
    ensures
        w.memory.closed ==> w.memory.parker.wake || w.called,
        w.memory.front() is Some ==> {
            ||| w.memory.parker.wake
            ||| w.called
            ||| exists|id: int| #[trigger]
                w.sends.contains_key(id) && w.sends[id].phase is Wake
        },
{
}

/// A receiver that is notified in its sleep is called: a request to wake it is there, or somebody
/// has taken it since.
pub proof fn law_called<T>(w: World<T>)
    requires
        w.inv(),
        w.asleep,
        w.memory.parker.state == ParkState::Notified,
    ensures
        w.memory.parker.wake || w.called,
{
}

/// A request to wake the receiver stays until somebody takes it. Who takes it while the receiver
/// sleeps and has been notified has set out to wake it, and that stays so until it is awake.
pub proof fn law_request_stays<T>(w: World<T>, step: Step<T>)
    requires
        w.inv(),
        w.enabled(step),
    ensures
        w.memory.parker.wake && !(step is TakeWake) ==> w.after(step).memory.parker.wake,
        w.asleep && w.memory.parker.wake && w.memory.parker.state == ParkState::Notified && step
            is TakeWake ==> w.after(step).called,
        w.asleep && w.called && !(step is Resume) ==> w.after(step).called,
        w.asleep && !(step is Resume) ==> w.after(step).asleep,
{
    if let Step::Send { id } = step {
        assert(w.send_inv(id));
    }
}

/// With fewer than 1792 sends under way, the tail has room for every index that they take.
pub proof fn law_room<T>(w: World<T>, id: int)
    requires
        w.inv(),
        w.in_flight().len() < 1792,
        w.sends.contains_key(id),
        w.sends[id].phase is Claim,
    ensures
        w.memory.can_claim(),
{
    if let Some((n, i)) = w.memory.tail {
        w.sends.dom().lemma_len_filter(|other: int| !w.sends[other].over());
        let others = w.in_flight().remove(id);
        assert(w.in_flight().contains(id));
        assert(w.waiting(n).subset_of(others));
        vstd::set_lib::lemma_len_subset(w.waiting(n), others);
    }
}

/// The count of a block never goes back to zero, so no block is given up while the queue lives.
pub proof fn law_blocks_stay<T>(w: World<T>, step: Step<T>, n: int)
    requires
        w.inv(),
        w.enabled(step),
        1 <= n <= w.memory.blocks,
    ensures
        n <= w.after(step).memory.blocks,
        0 <= w.memory.pending[n - 1] <= w.after(step).memory.pending[n - 1],
{
    match step {
        Step::Send { id } => {
            law_access(w, id);
            assert(w.send_inv(id));
        },
        _ => {},
    }
}

/// Whether a send that came to a block finds the tail there when it looks.
pub open spec fn current<T>(m: QueueState<T>, block: usize) -> bool {
    m.tail matches Some((n, _)) ==> n == crate::state::number(block)
}

/// How many accesses a send needs to come to its end, at most, when nobody else makes any.
pub open spec fn effort<T>(m: QueueState<T>, s: SendState<T>) -> nat {
    match s.phase {
        SendPhase::Claim => 9,
        SendPhase::LoadLink { block } => if current(m, block) {
            8
        } else {
            13
        },
        SendPhase::Link { block } => if current(m, block) {
            7
        } else {
            12
        },
        SendPhase::LoadTail { block, .. } => if current(m, block) {
            6
        } else {
            11
        },
        SendPhase::Swing { block, tail, .. } => if !current(m, block) {
            12
        } else if m.tail == Some(
            (crate::state::number(tail), crate::block::index_of(tail as int)),
        ) {
            5
        } else {
            7
        },
        SendPhase::Discard { .. } => 10,
        SendPhase::Store { .. } => 4,
        SendPhase::Wake { .. } => 3,
        SendPhase::Settle { .. } => 2,
        SendPhase::Sent => 0,
        SendPhase::Refused => 0,
    }
}

impl<T> World<T> {
    /// The world after send `id` has made `count` accesses, or has come to its end before, while
    /// nobody else has made any.
    pub open spec fn after_sends(self, id: int, count: nat) -> World<T>
        decreases count,
    {
        if count == 0 || self.sends[id].over() {
            self
        } else {
            self.after(Step::Send { id }).after_sends(id, (count - 1) as nat)
        }
    }
}

/// Each access of a send brings it nearer to its end.
pub proof fn law_progress<T>(w: World<T>, id: int)
    requires
        w.inv(),
        w.enabled(Step::Send { id }),
    ensures
        effort(w.after(Step::Send { id }).memory, w.after(Step::Send { id }).sends[id]) < effort(
            w.memory,
            w.sends[id],
        ),
{
    assert(w.send_inv(id));
    law_access(w, id);
    law_step(w, Step::Send { id });
}

/// A send that is about to link a block can do so.
pub open spec fn can_end<T>(m: QueueState<T>, phase: SendPhase) -> bool {
    match phase {
        SendPhase::LoadLink { block } => m.can_link(block),
        SendPhase::Link { block } => m.can_link(block),
        _ => true,
    }
}

proof fn lemma_finishes<T>(w: World<T>, id: int, count: nat)
    requires
        w.inv(),
        w.sends.contains_key(id),
        effort(w.memory, w.sends[id]) <= count,
        effort(w.memory, w.sends[id]) >= 9 ==> w.memory.has_room(),
        can_end(w.memory, w.sends[id].phase),
    ensures
        w.after_sends(id, count).inv(),
        w.after_sends(id, count).sends[id].over(),
    decreases count,
{
    if !w.sends[id].over() {
        assert(w.send_inv(id));
        law_access(w, id);
        law_progress(w, id);
        law_step(w, Step::Send { id });
        lemma_finishes(w.after(Step::Send { id }), id, (count - 1) as nat);
    }
}

/// No send ever waits for anybody: wherever the others stand, a send that goes on alone is over
/// after at most 13 accesses.
pub proof fn law_never_blocks<T>(w: World<T>, id: int)
    requires
        w.inv(),
        w.sends.contains_key(id),
        w.memory.has_room(),
        can_end(w.memory, w.sends[id].phase),
    ensures
        w.after_sends(id, 13).inv(),
        w.after_sends(id, 13).sends[id].over(),
{
    lemma_finishes(w, id, 13);
}

/// Once the receiver has hung up it stays so, and nothing is added any more to what has been
/// sent.
pub proof fn law_stays_hung_up<T>(w: World<T>, step: Step<T>)
    requires
        w.inv(),
        w.enabled(step),
        w.memory.tail is None,
    ensures
        w.after(step).memory.tail is None,
        w.after(step).log == w.log,
{
    if let Step::Send { id } = step {
        assert(w.send_inv(id));
    }
}

/// Whether a step is the beginning of send `id`.
pub open spec fn begins<T>(step: Step<T>, id: int) -> bool {
    step matches Step::Begin { id: other, .. } && other == id
}

/// Whether, in a row of steps, send `b` began when send `a` was over, as the sends of one thread
/// do.
pub open spec fn began_after<T>(steps: Seq<Step<T>>, a: int, b: int) -> bool {
    exists|i: int|
        0 <= i < steps.len() && #[trigger] begins(steps[i], b) && World::run(
            steps.take(i),
        ).sends.contains_key(a) && World::run(steps.take(i)).sends[a].over()
}

/// The beginning of a row of steps can happen where the row can.
proof fn lemma_beginning<T>(steps: Seq<Step<T>>, i: int)
    requires
        World::can_run(steps),
        0 <= i <= steps.len(),
    ensures
        World::can_run(steps.take(i)),
    decreases steps.len() - i,
{
    if i < steps.len() {
        lemma_beginning(steps, i + 1);
        assert(steps.take(i + 1).drop_last() =~= steps.take(i));
    } else {
        assert(steps.take(i) =~= steps);
    }
}

/// A send that is over stays as it is, and a send that begins later gets its ticket later.
proof fn lemma_later<T>(steps: Seq<Step<T>>, i: int, a: int, b: int)
    requires
        World::can_run(steps),
        0 <= i < steps.len(),
        begins(steps[i], b),
        World::run(steps.take(i)).sends.contains_key(a),
        World::run(steps.take(i)).sends[a].over(),
    ensures
        World::run(steps).sends.contains_key(a),
        World::run(steps).sends.contains_key(b),
        World::run(steps).sends[a] == World::run(steps.take(i)).sends[a],
        World::run(steps).sends[a].phase is Sent && World::run(steps).tickets.contains_key(b)
            ==> World::run(steps).tickets[a] < World::run(steps).tickets[b],
    decreases steps.len(),
{
    let before = World::run(steps.drop_last());
    let step = steps.last();
    law_always(steps.drop_last());
    if i == steps.len() - 1 {
        assert(steps.drop_last() =~= steps.take(i));
        assert(!before.tickets.contains_key(b));
    } else {
        assert(steps.drop_last().take(i) =~= steps.take(i));
        assert(steps.drop_last()[i] == steps[i]);
        lemma_later(steps.drop_last(), i, a, b);
        assert(before.send_inv(a));
        if before.sends[a].phase is Sent && before.after(step).tickets.contains_key(b) {
            if before.tickets.contains_key(b) {
                law_history(before, step);
            } else {
                law_order(before, step, b, a);
            }
        }
    }
}

/// Any number of threads send at once, in any order of their accesses, to a receiver that has not
/// hung up. When all sends are over, every one has succeeded, and each has one place in the row of
/// what has been sent, and no other thing has one: nothing is lost, doubled or overwritten. What
/// the receiver has not received is queued in the order of the row, and a send that began after
/// another one was over stands behind it.
pub proof fn law_concurrent_sends<T>(steps: Seq<Step<T>>)
    requires
        World::can_run(steps),
        World::run(steps).memory.tail is Some,
        forall|id: int|
            World::run(steps).sends.contains_key(id) ==> (#[trigger] World::run(
                steps,
            ).sends[id]).over(),
    ensures
        ({
            let w = World::run(steps);
            &&& forall|id: int|
                w.sends.contains_key(id) ==> {
                    &&& (#[trigger] w.sends[id]).phase is Sent
                    &&& w.tickets.contains_key(id)
                    &&& w.owner[w.tickets[id]] == id
                }
            &&& w.owner.no_duplicates()
            &&& w.owner.to_set() == w.sends.dom()
            &&& w.log == w.owner.map_values(|id: int| w.messages[id])
            &&& w.received == w.log.take(w.received.len() as int)
            &&& w.memory.queued() == w.log.skip(w.received.len() as int).map_values(
                |value: T| Some(value),
            )
            &&& forall|a: int, b: int| #[trigger]
                began_after(steps, a, b) ==> w.tickets[a] < w.tickets[b]
        }),
{
    let w = World::run(steps);
    law_always(steps);
    law_fifo(w);
    assert forall|id: int| w.sends.contains_key(id) implies {
        &&& (#[trigger] w.sends[id]).phase is Sent
        &&& w.tickets.contains_key(id)
        &&& w.owner[w.tickets[id]] == id
    } by {
        assert(w.send_inv(id));
    }
    assert(w.owner.to_set() =~= w.sends.dom()) by {
        assert forall|id: int| w.sends.contains_key(id) implies w.owner.contains(id) by {
            assert(w.sends[id].over());
            assert(w.send_inv(id));
            assert(w.owner[w.tickets[id]] == id);
        }
    }
    assert(w.log =~= w.owner.map_values(|id: int| w.messages[id])) by {
        assert forall|t: int| 0 <= t < w.log.len() implies w.log[t] == w.messages[w.owner[t]] by {
            assert(w.send_inv(w.owner[t]));
        }
    }
    let rest = w.log.skip(w.received.len() as int).map_values(|value: T| Some(value));
    assert forall|j: int| 0 <= j < w.memory.queued().len() implies #[trigger] w.memory.queued()[j]
        == rest[j] by {
        let id = w.owner[w.received.len() + j];
        assert(w.sends.contains_key(id));
        assert(w.sends[id].over());
    }
    assert(w.memory.queued() =~= rest);
    assert forall|a: int, b: int| #[trigger] began_after(steps, a, b) implies w.tickets[a]
        < w.tickets[b] by {
        let i = choose|i: int|
            0 <= i < steps.len() && #[trigger] begins(steps[i], b) && World::run(
                steps.take(i),
            ).sends.contains_key(a) && World::run(steps.take(i)).sends[a].over();
        lemma_beginning(steps, i);
        lemma_later(steps, i, a, b);
        assert(w.sends[a].over());
        assert(w.sends[b].over());
        assert(w.send_inv(b));
    }
}

/// The messages of one thread, which begins each send when the one before is over, stand in the
/// order in which the thread sent them.
pub proof fn law_thread_order<T>(steps: Seq<Step<T>>, thread: Seq<int>)
    requires
        World::can_run(steps),
        World::run(steps).memory.tail is Some,
        forall|id: int|
            World::run(steps).sends.contains_key(id) ==> (#[trigger] World::run(
                steps,
            ).sends[id]).over(),
        forall|j: int|
            0 <= j < thread.len() - 1 ==> #[trigger] began_after(steps, thread[j], thread[j + 1]),
    ensures
        forall|j: int, k: int|
            0 <= j < k < thread.len() ==> World::run(steps).tickets[#[trigger] thread[j]]
                < World::run(steps).tickets[#[trigger] thread[k]],
    decreases thread.len(),
{
    if thread.len() > 1 {
        let before = thread.drop_last();
        assert forall|j: int| 0 <= j < before.len() - 1 implies #[trigger] began_after(
            steps,
            before[j],
            before[j + 1],
        ) by {
            assert(began_after(steps, thread[j], thread[j + 1]));
        }
        law_thread_order(steps, before);
        law_concurrent_sends(steps);
        let w = World::run(steps);
        let last = thread.len() - 1;
        assert(began_after(steps, thread[last - 1], thread[last - 1 + 1]));
        assert forall|j: int, k: int| 0 <= j < k < thread.len() implies w.tickets[#[trigger] thread[j]]
            < w.tickets[#[trigger] thread[k]] by {
            assert(j < last ==> before[j] == thread[j]);
            assert(k < last ==> before[k] == thread[k]);
            assert(before[last - 1] == thread[last - 1]);
            if k == last && j < last - 1 {
                assert(w.tickets[before[j]] < w.tickets[before[last - 1]]);
            }
        }
    }
}

/// Rows of different order without doubles give the same values.
proof fn lemma_same_values<T>(a: Seq<int>, b: Seq<int>, value: spec_fn(int) -> T)
    requires
        a.no_duplicates(),
        b.no_duplicates(),
        a.to_set() == b.to_set(),
    ensures
        a.map_values(value).to_multiset() == b.map_values(value).to_multiset(),
        a.len() == b.len(),
    decreases a.len(),
{
    broadcast use vstd::seq_lib::group_to_multiset_ensures;

    if a.len() == 0 {
        assert(b.len() == 0) by {
            if b.len() > 0 {
                assert(b.to_set().contains(b[0]));
                assert(a.contains(b[0]));
            }
        }
        assert(a.map_values(value) =~= b.map_values(value));
    } else {
        let last = a.last();
        assert(a.to_set().contains(last));
        assert(b.contains(last));
        let k = b.index_of(last);
        let rest = b.remove(k);
        let before = a.drop_last();
        assert forall|id: int| before.to_set().contains(id) == rest.to_set().contains(id) by {
            if before.contains(id) {
                let i = before.index_of(id);
                assert(a[i] == id);
                assert(a.to_set().contains(id));
                assert(b.contains(id));
                let j = b.index_of(id);
                assert(j != k);
                assert(rest[if j < k {
                    j
                } else {
                    j - 1
                }] == id);
            }
            if rest.contains(id) {
                let j = rest.index_of(id);
                assert(b[if j < k {
                    j
                } else {
                    j + 1
                }] == id);
                assert(b.to_set().contains(id));
                assert(a.contains(id));
                let i = a.index_of(id);
                assert(i != a.len() - 1);
                assert(before[i] == id);
            }
        }
        assert(before.to_set() =~= rest.to_set());
        lemma_same_values(before, rest, value);
        assert(a.map_values(value) =~= before.map_values(value).push(value(last)));
        assert(rest.map_values(value) =~= b.map_values(value).remove(k));
        vstd::seq_lib::to_multiset_remove(b.map_values(value), k);
        assert(b.map_values(value)[k] == value(last));
        assert(b.map_values(value).to_multiset().contains(value(last)));
        assert(a.map_values(value).to_multiset() =~= b.map_values(value).to_multiset());
    }
}

/// Any number of threads send, and all senders then hang up. When the receiver is told so, it has
/// received as many messages as there were sends, and they are the messages of the sends, each
/// once: `ids` names the sends in any order. By `law_thread_order` those of one thread came in
/// the order in which it sent them.
pub proof fn law_all_received<T>(steps: Seq<Step<T>>, ids: Seq<int>)
    requires
        World::can_run(steps),
        World::run(steps).memory.tail is Some,
        World::run(steps).idle(),
        World::run(steps).recv.closed,
        ids.no_duplicates(),
        ids.to_set() == World::run(steps).sends.dom(),
    ensures
        ({
            let w = World::run(steps);
            &&& w.received == w.log
            &&& w.received.len() == ids.len()
            &&& w.received.to_multiset() == ids.map_values(
                |id: int| w.messages[id],
            ).to_multiset()
            &&& forall|id: int|
                w.sends.contains_key(id) ==> {
                    &&& (#[trigger] w.sends[id]).phase is Sent
                    &&& w.received[w.tickets[id]] == w.messages[id]
                }
        }),
{
    let w = World::run(steps);
    law_always(steps);
    law_disconnected(w);
    law_concurrent_sends(steps);
    lemma_same_values(w.owner, ids, |id: int| w.messages[id]);
    assert forall|id: int| w.sends.contains_key(id) implies {
        &&& (#[trigger] w.sends[id]).phase is Sent
        &&& w.received[w.tickets[id]] == w.messages[id]
    } by {
        assert(w.send_inv(id));
    }
}

} // verus!
