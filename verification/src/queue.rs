//! The queue itself, and the sends and receives that work on it one access at a time.

use crate::block::{
    Block, SlotState, BLOCK_ALIGN, BLOCK_SIZE, DISCONNECT_BIT, INDEX_SHIFT, MAX_INDEX,
};
use crate::padded::{load, pad, store};
use crate::parker::{ParkState, Parker, TryParkResult};
use crate::state::{QueueState, RecvPhase, RecvState, SendPhase, SendState, Signal};
use crate::wait::{RecvRound, TimedRound, TimedWaiting, Waiting};
use cache_padded::CachePadded;
use vstd::prelude::*;

verus! {

/// An unbounded queue of messages in linked blocks.
///
/// `producer` is the word that senders take their slots from, `head` the word that tells the
/// receiver where to read.
pub struct Queue<T> {
    producer: CachePadded<usize>,
    head: CachePadded<usize>,
    parker: Parker,
    disconnected: bool,
    blocks: Vec<Block<T>>,
    issued: Ghost<int>,
}

/// The slots of a row of blocks as one row.
spec fn flat<T>(blocks: Seq<Block<T>>) -> Seq<SlotState<T>> {
    Seq::new(256 * blocks.len(), |t: int| blocks[t / 256].slots@[t % 256]@)
}

/// The counts of a row of blocks.
spec fn counts<T>(blocks: Seq<Block<T>>) -> Seq<int> {
    Seq::new(blocks.len(), |k: int| blocks[k].pending as int)
}

/// The address that block `k` of a row of `len` blocks is linked to.
spec fn link_of(k: int, len: int) -> int {
    if k + 1 < len {
        4096 * (k + 2)
    } else {
        0
    }
}

/// A block that nobody has used yet.
spec fn fresh<T>(block: Block<T>) -> bool {
    &&& block.wf()
    &&& block.next == 0
    &&& block.pending == 0
    &&& forall|i: int| 0 <= i < 256 ==> (#[trigger] block.slots@[i])@ == SlotState::<T>::Vacant
}

impl<T> Queue<T> {
    /// The memory of the queue.
    pub closed spec fn view(&self) -> QueueState<T> {
        let producer = crate::padded::padded_word(self.producer) as int;
        let head = crate::padded::padded_word(self.head) as int;
        QueueState {
            tail: if producer % 2 == 1 {
                None
            } else {
                Some((producer / 4096, (producer % 4096) / 2))
            },
            head: (head / 4096, (head % 4096) / 2),
            closed: self.disconnected,
            parker: self.parker,
            blocks: self.blocks@.len() as int,
            slots: flat(self.blocks@),
            pending: counts(self.blocks@),
            issued: self.issued@,
        }
    }

    /// The words and the blocks are in the form that `view` reads.
    pub closed spec fn repr(&self) -> bool {
        &&& crate::padded::padded_word(self.head) as int % 2 == 0
        &&& forall|k: int|
            0 <= k < self.blocks@.len() ==> {
                &&& (#[trigger] self.blocks@[k]).wf()
                &&& self.blocks@[k].next == link_of(k, self.blocks@.len() as int)
            }
    }

    /// What holds of a queue at all times.
    pub open spec fn wf(&self) -> bool {
        self.repr() && self@.wf()
    }

    /// A queue that nothing has been sent to.
    pub fn new() -> (queue: Queue<T>)
        ensures
            queue.wf(),
            queue@ == QueueState::<T>::empty(),
    {
        let queue = Queue {
            producer: pad(0),
            head: pad(0),
            parker: Parker::new(),
            disconnected: false,
            blocks: Vec::new(),
            issued: Ghost(0int),
        };
        proof {
            assert(flat(queue.blocks@) =~= Seq::empty());
            assert(counts(queue.blocks@) =~= Seq::empty());
        }
        queue
    }

    /// Sends a message, without any other access to the queue in between. The message comes
    /// back if the receiver has hung up.
    pub fn send(&mut self, value: T) -> (res: Result<(), T>)
        requires
            old(self).wf(),
            old(self)@.has_room(),
        ensures
            final(self).wf(),
            (res, final(self)@) == old(self)@.send_outcome(value),
            old(self)@.tail is Some ==> old(self)@.sent(value, final(self)@),
    {
        let ghost start = self@;
        proof {
            if start.tail is Some {
                crate::state::lemma_with_sent(start, value);
            }
        }
        let mut op = SendOp::new(value);
        let mut signal = Signal::Continue;
        while signal != Signal::Done
            invariant
                self.wf(),
                op.wf(),
                start.wf(),
                start.has_room(),
                crate::state::alone(start, value, self@, op@),
                signal == Signal::Done <==> op@.over(),
            decreases crate::state::rank(op@.phase),
        {
            proof {
                crate::state::lemma_alone(start, value, self@, op@);
            }
            signal = op.step(self);
        }
        op.finish()
    }

    /// Receives the message that is first in line, without any other access to the queue in
    /// between. `Err` says that there is none and that all senders have hung up.
    pub fn try_recv(&mut self) -> (res: Result<Option<T>, ()>)
        requires
            old(self).wf(),
        ensures
            final(self).wf(),
            (res, final(self)@) == old(self)@.recv_outcome(),
            old(self)@.read(final(self)@),
    {
        let ghost start = self@;
        proof {
            crate::state::lemma_with_read(start);
        }
        let mut op = RecvOp::new();
        while !op.is_over()
            invariant
                self.wf(),
                start.wf(),
                crate::state::recv_alone(start, self@, op@),
            decreases crate::state::recv_rank(op@.phase),
        {
            proof {
                crate::state::lemma_recv_alone(start, self@, op@);
            }
            op.step(self);
        }
        op.finish()
    }

    /// One round of a receive that waits: looks for a message, and says what to do if there is
    /// none. The receive looks sixteen times before it sleeps for the first time.
    pub fn recv(&mut self, waiting: &mut Waiting) -> (round: RecvRound<Result<T, ()>>)
        requires
            old(self).wf(),
        ensures
            final(self).wf(),
            (round, final(self)@, *final(waiting)) == crate::wait::recv_round(
                old(self)@,
                *old(waiting),
            ),
    {
        match self.try_recv() {
            Ok(Some(value)) => return RecvRound::Done(Ok(value)),
            Err(()) => return RecvRound::Done(Err(())),
            Ok(None) => {},
        }
        waiting.spins = waiting.spins.saturating_sub(1);
        if waiting.spins != 0 {
            return RecvRound::Spin;
        }
        if self.park() {
            RecvRound::Sleep
        } else {
            RecvRound::Again
        }
    }

    /// One round of a receive that waits for a time: looks for a message, and says what to do if
    /// there is none. When the time is used up, the receive has looked for the last time.
    pub fn recv_timeout<D>(&mut self, waiting: &mut TimedWaiting<D>) -> (round: TimedRound<
        Result<Option<T>, ()>,
        D,
    >)
        requires
            old(self).wf(),
        ensures
            final(self).wf(),
            (round, final(self)@, *final(waiting)) == crate::wait::timed_round(
                old(self)@,
                *old(waiting),
            ),
    {
        match self.try_recv() {
            Ok(Some(value)) => return TimedRound::Done(Ok(Some(value))),
            Err(()) => return TimedRound::Done(Err(())),
            Ok(None) => {},
        }
        match waiting.timeout.take() {
            None => TimedRound::Done(Ok(None)),
            Some(timeout) => match self.try_park_for(timeout) {
                Err(timeout) => TimedRound::Sleep(timeout),
                Ok(TryParkResult::Interrupted(unused)) => {
                    waiting.timeout = Some(unused);
                    TimedRound::Again
                },
                Ok(_) => TimedRound::Again,
            },
        }
    }

    /// Ends a sleep that `recv_timeout` has asked for. If a notification ended it, the receive
    /// goes on with the time that is left, `left`; if the time ran out, it looks once more.
    pub fn resume_timeout<D>(&mut self, waiting: &mut TimedWaiting<D>, left: Option<D>)
        requires
            old(self).wf(),
        ensures
            final(self).wf(),
            final(self)@ == crate::wait::awake(old(self)@),
            final(waiting).timeout == crate::wait::time_left(old(self)@.parker, left),
    {
        let outcome: TryParkResult<D> = self.resume();
        match outcome {
            TryParkResult::Unparked => {
                waiting.timeout = left;
            },
            TryParkResult::Interrupted(unused) => {
                waiting.timeout = Some(unused);
            },
            TryParkResult::Timeout => {
                waiting.timeout = None;
            },
        }
    }

    /// Hangs up one side: the last sender, or the receiver.
    pub fn disconnect(&mut self, is_sender: bool)
        requires
            old(self).wf(),
            !is_sender ==> old(self)@.tail is Some,
        ensures
            final(self).wf(),
            final(self)@ == old(self)@.with_hang_up(is_sender),
    {
        if is_sender {
            self.disconnected = true;
            self.parker.unpark();
            return;
        }
        let _ = Block::<T>::fetch_add(&mut self.producer, DISCONNECT_BIT);
    }

    /// Whether the receiver has not hung up.
    pub fn has_receiver(&self) -> (there: bool)
        requires
            self.wf(),
        ensures
            there == (self@.tail is Some),
    {
        let (_, _, disconnected) = Block::<T>::decode(load(&self.producer));
        !disconnected
    }

    /// Whether there is an index left for one more sender to take.
    fn can_claim(&self) -> (able: bool)
        requires
            self.wf(),
        ensures
            able == self@.can_claim(),
    {
        let (_, index, disconnected) = Block::<T>::decode(load(&self.producer));
        disconnected || index < MAX_INDEX
    }

    /// Whether there is an address left for one more block.
    fn can_grow(&self) -> (able: bool)
        requires
            self.wf(),
        ensures
            able == self@.can_grow(),
    {
        self.blocks.len() <= usize::MAX / BLOCK_ALIGN - 2
    }

    /// Whether there is room for one more send.
    pub fn has_room(&self) -> (room: bool)
        requires
            self.wf(),
        ensures
            room == self@.has_room(),
    {
        let (block, index, disconnected) = Block::<T>::decode(load(&self.producer));
        proof {
            lemma_word(crate::padded::padded_word(self.producer));
        }
        if disconnected {
            return true;
        }
        let linked: bool = block / BLOCK_ALIGN < self.blocks.len();
        index < MAX_INDEX && (block != 0 && index < BLOCK_SIZE || linked || self.can_grow())
    }

    /// Asks to put the receiver to sleep, and says whether it is to sleep.
    pub fn park(&mut self) -> (sleep: bool)
        requires
            old(self).wf(),
        ensures
            final(self).wf(),
            sleep == (crate::parker::parked(old(self)@.parker).state == ParkState::Parked),
            final(self)@ == (QueueState {
                parker: crate::parker::parked(old(self)@.parker),
                ..old(self)@
            }),
    {
        self.parker.park()
    }

    /// Asks to put the receiver to sleep for at most `timeout`; `Err` says that it is to sleep.
    pub fn try_park_for<D>(&mut self, timeout: D) -> (res: Result<TryParkResult<D>, D>)
        requires
            old(self).wf(),
        ensures
            final(self).wf(),
            res == (if crate::parker::parked(old(self)@.parker).state == ParkState::Parked {
                Err::<TryParkResult<D>, D>(timeout)
            } else {
                Ok(TryParkResult::Interrupted(timeout))
            }),
            final(self)@ == (QueueState {
                parker: crate::parker::parked(old(self)@.parker),
                ..old(self)@
            }),
    {
        self.parker.try_park_for(timeout)
    }

    /// Ends the sleep of the receiver, and says how it ended.
    pub fn resume<D>(&mut self) -> (res: TryParkResult<D>)
        requires
            old(self).wf(),
        ensures
            final(self).wf(),
            res == crate::parker::outcome::<D>(old(self)@.parker),
            final(self)@ == (QueueState {
                parker: crate::parker::resumed(old(self)@.parker),
                ..old(self)@
            }),
    {
        self.parker.resume()
    }

    /// Says whether the sleeping receiver has to be woken, and takes that request.
    pub fn take_wake(&mut self) -> (wake: bool)
        requires
            old(self).wf(),
        ensures
            final(self).wf(),
            wake == old(self)@.parker.wake,
            final(self)@ == (QueueState {
                parker: Parker { wake: false, ..old(self)@.parker },
                ..old(self)@
            }),
    {
        self.parker.take_wake()
    }

    /// Takes the queue down, and hands out the messages that are left, oldest first.
    pub fn drop(self) -> (left: Vec<T>)
        requires
            self.wf(),
        ensures
            left@ == self@.left(),
    {
        let mut queue = self;
        let mut left: Vec<T> = Vec::new();
        let ghost m = self@;
        let (mut block, mut index, _) = Block::<T>::decode(load(&queue.head));
        assert(m.left() =~= left@ + m.left_from(
            crate::state::number(block),
            index as int,
        ));
        while block != 0
            invariant
                m == self@,
                m.wf(),
                self.repr(),
                block as int % 4096 == 0,
                crate::state::number(block) <= m.blocks,
                index <= 256,
                block != 0 ==> m.received() <= QueueState::<T>::ticket(block, index),
                queue.blocks@.len() == m.blocks,
                forall|k: int|
                    0 <= k < m.blocks ==> {
                        &&& (#[trigger] queue.blocks@[k]).wf()
                        &&& queue.blocks@[k].next == link_of(k, m.blocks)
                    },
                forall|k: int|
                    block != 0 && crate::state::number(block) <= k < m.blocks
                        ==> #[trigger] queue.blocks@[k] == self.blocks@[k],
                block != 0 ==> queue.blocks@[crate::state::number(block) - 1]
                    == self.blocks@[crate::state::number(block) - 1],
                m.left() == left@ + (if block == 0 {
                    Seq::empty()
                } else {
                    m.left_from(crate::state::number(block), index as int)
                }),
            decreases
                    (if block == 0 {
                        0
                    } else {
                        m.blocks - crate::state::number(block) + 1
                    }),
        {
            let k: usize = block / BLOCK_ALIGN - 1;
            let ghost rest = m.left_from(k + 2, 0);
            let mut i: usize = index;
            let mut open = true;
            while open && i < BLOCK_SIZE
                invariant
                    m == self@,
                    m.wf(),
                    self.repr(),
                    0 <= k < m.blocks,
                    i <= 256,
                    m.received() <= 256 * k + i,
                    queue.blocks@.len() == m.blocks,
                    forall|j: int|
                        0 <= j < m.blocks ==> {
                            &&& (#[trigger] queue.blocks@[j]).wf()
                            &&& queue.blocks@[j].next == link_of(j, m.blocks)
                        },
                    forall|j: int|
                        k < j < m.blocks ==> #[trigger] queue.blocks@[j] == self.blocks@[j],
                    open ==> forall|j: int|
                        i <= j < 256 ==> #[trigger] queue.blocks@[k as int].slots@[j]
                            == self.blocks@[k as int].slots@[j],
                    m.left() == left@ + (if open {
                        m.run_from(256 * k + i, 256 * k + 256)
                    } else {
                        Seq::empty()
                    }) + rest,
                decreases 256 - i + (if open { 1int } else { 0 }),
            {
                let ghost t = 256 * k + i;
                let ghost before = left@;
                assert(t / 256 == k && t % 256 == i);
                assert(m.slots[t] == queue.blocks@[k as int].slots@[i as int]@);
                assert(!(m.slots[t] is Taken));
                match queue.blocks[k].slots[i].read() {
                    Some(value) => {
                        left.push(value);
                        i = i + 1;
                        assert(before + (seq![value] + m.run_from(t + 1, 256 * k + 256)) + rest
                            =~= left@ + m.run_from(t + 1, 256 * k + 256) + rest);
                    },
                    None => {
                        open = false;
                    },
                }
            }
            block = queue.blocks[k].next;
            index = 0;
            assert(m.left() =~= left@ + rest);
        }
        assert(left@ =~= m.left());
        left
    }

    /// The word in the link behind the block at `block`; behind no block, that is the head.
    fn link_word(&self, block: usize) -> (next: usize)
        requires
            self.wf(),
            block as int % 4096 == 0,
            crate::state::number(block) <= self@.blocks,
        ensures
            next == self@.link(crate::state::number(block)),
    {
        if block == 0 {
            load(&self.head)
        } else {
            self.blocks[block / BLOCK_ALIGN - 1].next
        }
    }

    /// Links an unused block behind the last one, and returns its address.
    fn link_block(&mut self, block: Block<T>) -> (next: usize)
        requires
            old(self).wf(),
            fresh(block),
            old(self)@.can_grow(),
        ensures
            final(self).repr(),
            final(self)@ == old(self)@.grown(),
            next == crate::state::address(old(self)@.blocks + 1),
    {
        let ghost before = *self;
        let len: usize = self.blocks.len();
        let next: usize = (len + 1) * BLOCK_ALIGN;
        if len == 0 {
            store(&mut self.head, next);
        } else {
            self.blocks[len - 1].next = next;
        }
        self.blocks.push(block);
        proof {
            assert(flat(self.blocks@) =~= flat(before.blocks@) + Seq::new(
                256,
                |i: int| SlotState::<T>::Vacant,
            ));
            assert(counts(self.blocks@) =~= counts(before.blocks@).push(0));
        }
        next
    }

    /// Takes the next index of the tail, and says which block and which index that was, and
    /// whether the receiver has hung up.
    fn take_index(&mut self) -> (taken: (usize, usize, bool))
        requires
            old(self).wf(),
            old(self)@.can_claim(),
        ensures
            final(self).repr(),
            match old(self)@.tail {
                None => taken.2 && final(self)@ == old(self)@,
                Some((n, i)) => {
                    &&& taken.0 == crate::state::address(n)
                    &&& taken.1 == i
                    &&& !taken.2
                    &&& final(self)@ == (QueueState { tail: Some((n, i + 1)), ..old(self)@ })
                },
            },
    {
        let tail: usize = Block::<T>::fetch_add(&mut self.producer, 1 << INDEX_SHIFT);
        proof {
            assert(1usize << 1u32 == 2) by (bit_vector);
            lemma_word(tail);
        }
        Block::<T>::decode(tail)
    }

    /// Takes the message at the head, which points to slot `index` of the block at `block`, and
    /// moves the head on if there was one.
    fn take(&mut self, block: usize, index: usize) -> (value: Option<T>)
        requires
            old(self).wf(),
            old(self)@.head == (crate::state::number(block), index as int),
            block as int % 4096 == 0,
            block != 0,
            index < 256,
        ensures
            final(self).repr(),
            ({
                let t = QueueState::<T>::ticket(block, index);
                match old(self)@.slots[t] {
                    SlotState::Full(message) => {
                        &&& value == Some(message)
                        &&& final(self)@ == (QueueState {
                            head: (crate::state::number(block), index + 1),
                            slots: old(self)@.slots.update(t, SlotState::Taken),
                            ..old(self)@
                        })
                    },
                    _ => value is None && final(self)@ == old(self)@,
                }
            }),
    {
        let ghost before = *self;
        let ghost t = QueueState::<T>::ticket(block, index);
        let k: usize = block / BLOCK_ALIGN - 1;
        proof {
            assert(t / 256 == k && t % 256 == index);
            assert(before@.slots[t] == before.blocks@[k as int].slots@[index as int]@);
            assert(t < before@.issued ==> !(before@.slots[t] is Taken));
            assert(t >= before@.issued ==> before@.slots[t] is Vacant);
        }
        let value = self.blocks[k].slots[index].read();
        proof {
            lemma_flat_update(before.blocks@, self.blocks@, k as int, index as int);
            assert(counts(self.blocks@) =~= counts(before.blocks@));
        }
        if value.is_some() {
            store(&mut self.head, Block::<T>::encode(block, index + 1, false));
        } else {
            assert(self@.slots =~= before@.slots);
        }
        value
    }

    /// Moves the head from the block at `block` to the first slot of the one at `next`, and counts
    /// the receiver as done with the block that it leaves.
    fn leave(&mut self, block: usize, next: usize)
        requires
            old(self).wf(),
            block as int % 4096 == 0,
            1 <= crate::state::number(block) <= old(self)@.blocks,
            next as int % 4096 == 0,
        ensures
            final(self).repr(),
            final(self)@ == (QueueState {
                head: (crate::state::number(next), 0int),
                ..old(self)@.counted(block, 1)
            }),
    {
        self.count(block, 1);
        store(&mut self.head, Block::<T>::encode(next, 0, false));
    }

    /// Counts `count` threads as done with the block at `block`. The count only ever grows from
    /// zero, so the block stays for as long as the queue does.
    fn count(&mut self, block: usize, count: isize)
        requires
            old(self).wf(),
            block as int % 4096 == 0,
            1 <= crate::state::number(block) <= old(self)@.blocks,
            1 <= count <= 2047,
        ensures
            final(self).repr(),
            final(self)@ == old(self)@.counted(block, count as int),
    {
        let ghost before = *self;
        let k: usize = block / BLOCK_ALIGN - 1;
        assert(self@.pending[k + 1 - 1] == self.blocks@[k as int].pending);
        let last = self.blocks[k].drop(count);
        proof {
            assert(!last);
            assert(flat(self.blocks@) =~= flat(before.blocks@));
            assert(counts(self.blocks@) =~= before@.counted(block, count as int).pending);
        }
    }
}

/// The parts of a tagged word make up the word.
proof fn lemma_word(word: usize)
    ensures
        crate::state::address(word as int / 4096) == word - word as int % 4096,
        crate::state::number((word - word as int % 4096) as usize) == word as int / 4096,
        (4096 * (word as int / 4096) + 2 * crate::block::index_of(word as int)) == word - word as int
            % 2,
{
}

/// Writing one slot of one block writes one slot of the row.
proof fn lemma_flat_update<T>(before: Seq<Block<T>>, after: Seq<Block<T>>, k: int, i: int)
    requires
        0 <= k < before.len(),
        0 <= i < 256,
        after.len() == before.len(),
        after[k].slots@.len() == 256,
        before[k].slots@.len() == 256,
        forall|j: int| 0 <= j < before.len() && j != k ==> after[j] == before[j],
        forall|j: int| 0 <= j < 256 && j != i ==> after[k].slots@[j] == before[k].slots@[j],
    ensures
        flat(after) == flat(before).update(256 * k + i, after[k].slots@[i]@),
{
    let t = 256 * k + i;
    assert(t / 256 == k && t % 256 == i);
    assert forall|u: int| 0 <= u < 256 * before.len() implies flat(after)[u] == flat(
        before,
    ).update(t, after[k].slots@[i]@)[u] by {
        if u != t && u / 256 == k {
            assert(u % 256 != i);
        }
    }
    assert(flat(after) =~= flat(before).update(t, after[k].slots@[i]@));
}

/// A send under way.
///
/// Every call of `step` makes one access to the memory of the queue, so that the accesses of
/// many sends can be mixed in any order.
pub struct SendOp<T> {
    phase: SendPhase,
    value: Option<T>,
    spare: Option<Block<T>>,
}

impl<T> SendOp<T> {
    /// Where the send stands.
    pub closed spec fn view(&self) -> SendState<T> {
        SendState { phase: self.phase, value: self.value }
    }

    /// The block that the send keeps to link is unused, and is there when it is linked.
    pub closed spec fn wf(&self) -> bool {
        &&& self.spare matches Some(block) ==> fresh(block)
        &&& self.phase is Link ==> self.spare is Some
    }

    /// A send that has not touched the queue yet.
    pub fn new(value: T) -> (op: SendOp<T>)
        ensures
            op.wf(),
            op@ == SendState::begun(value),
    {
        SendOp { phase: SendPhase::Claim, value: Some(value), spare: None }
    }

    /// Takes the next index of the tail.
    fn claim(&mut self, queue: &mut Queue<T>) -> (signal: Signal)
        requires
            old(queue).wf(),
            old(self).wf(),
            old(self)@.ready(old(queue)@),
            old(self)@.phase is Claim,
        ensures
            final(queue).wf(),
            final(self).wf(),
            (final(queue)@, final(self)@, signal) == crate::state::send_next(
                old(queue)@,
                old(self)@,
            ),
    {
        let ghost before = *queue;
        let (block, index, disconnected) = queue.take_index();
        if disconnected {
            self.phase = SendPhase::Refused;
            return Signal::Done;
        }
        if block != 0 && index < BLOCK_SIZE {
            proof {
                queue.issued@ = queue.issued@ + 1;
            }
            self.phase = SendPhase::Store { block, index, pending: None };
        } else {
            self.phase = SendPhase::LoadLink { block };
        }
        proof {
            crate::state::lemma_send_next_wf(before@, old(self)@);
        }
        Signal::Continue
    }

    /// Looks for the block behind `block`.
    fn load_link(&mut self, queue: &mut Queue<T>, block: usize) -> (signal: Signal)
        requires
            old(queue).wf(),
            old(self).wf(),
            old(self)@.ready(old(queue)@),
            old(self)@.phase == (SendPhase::LoadLink { block }),
        ensures
            final(queue).wf(),
            final(self).wf(),
            (final(queue)@, final(self)@, signal) == crate::state::send_next(
                old(queue)@,
                old(self)@,
            ),
    {
        let next: usize = queue.link_word(block);
        if next != 0 {
            self.phase = SendPhase::LoadTail { block, next };
            return Signal::Continue;
        }
        if self.spare.is_none() {
            self.spare = Some(Block::new());
        }
        self.phase = SendPhase::Link { block };
        Signal::Continue
    }

    /// Links the block that the send keeps behind `block`, unless another send was faster.
    fn link(&mut self, queue: &mut Queue<T>, block: usize) -> (signal: Signal)
        requires
            old(queue).wf(),
            old(self).wf(),
            old(self)@.ready(old(queue)@),
            old(self)@.phase == (SendPhase::Link { block }),
        ensures
            final(queue).wf(),
            final(self).wf(),
            (final(queue)@, final(self)@, signal) == crate::state::send_next(
                old(queue)@,
                old(self)@,
            ),
    {
        let next: usize = queue.link_word(block);
        if next != 0 {
            self.phase = SendPhase::LoadTail { block, next };
            return Signal::Continue;
        }
        let spare = self.spare.take();
        if let Some(fresh) = spare {
            proof {
                crate::state::lemma_send_next_wf(queue@, old(self)@);
            }
            let next: usize = queue.link_block(fresh);
            self.phase = SendPhase::LoadTail { block, next };
        }
        Signal::Continue
    }

    /// Looks whether the tail is still at `block`.
    fn load_tail(&mut self, queue: &mut Queue<T>, block: usize, next: usize) -> (signal: Signal)
        requires
            old(queue).wf(),
            old(self).wf(),
            old(self)@.ready(old(queue)@),
            old(self)@.phase == (SendPhase::LoadTail { block, next }),
        ensures
            final(queue).wf(),
            final(self).wf(),
            (final(queue)@, final(self)@, signal) == crate::state::send_next(
                old(queue)@,
                old(self)@,
            ),
    {
        let tail: usize = load(&queue.producer);
        let (current, _, disconnected) = Block::<T>::decode(tail);
        proof {
            lemma_word(tail);
            assert(queue@.tail matches Some((n, i)) ==> {
                &&& current == crate::state::address(n)
                &&& tail == (4096 * n + 2 * i) as usize
            });
        }
        if disconnected {
            self.phase = SendPhase::Refused;
            return Signal::Done;
        }
        if current == block {
            self.phase = SendPhase::Swing { block, next, tail };
            return Signal::Continue;
        }
        if block != 0 {
            self.phase = SendPhase::Discard { block };
            return Signal::Continue;
        }
        self.phase = SendPhase::Claim;
        Signal::Spin
    }

    /// Moves the tail from `block` to the first slot of `next`, unless the tail has changed.
    fn swing(&mut self, queue: &mut Queue<T>, block: usize, next: usize, tail: usize) -> (signal:
        Signal)
        requires
            old(queue).wf(),
            old(self).wf(),
            old(self)@.ready(old(queue)@),
            old(self)@.phase == (SendPhase::Swing { block, next, tail }),
        ensures
            final(queue).wf(),
            final(self).wf(),
            (final(queue)@, final(self)@, signal) == crate::state::send_next(
                old(queue)@,
                old(self)@,
            ),
    {
        let ghost before = *queue;
        let word: usize = Block::<T>::encode(next, 1, false);
        if load(&queue.producer) != tail {
            self.phase = SendPhase::LoadTail { block, next };
            return Signal::Yield;
        }
        let (_, index, _) = Block::<T>::decode(tail);
        store(&mut queue.producer, word);
        proof {
            queue.issued@ = queue.issued@ + 1;
        }
        let pending: (usize, usize) = if block != 0 {
            (block, index - BLOCK_SIZE)
        } else {
            (next, 1)
        };
        self.phase = SendPhase::Store { block: next, index: 0, pending: Some(pending) };
        proof {
            crate::state::lemma_send_next_wf(before@, old(self)@);
        }
        Signal::Continue
    }

    /// Counts the send as done with a block that another send has moved the tail away from.
    fn discard(&mut self, queue: &mut Queue<T>, block: usize) -> (signal: Signal)
        requires
            old(queue).wf(),
            old(self).wf(),
            old(self)@.ready(old(queue)@),
            old(self)@.phase == (SendPhase::Discard { block }),
        ensures
            final(queue).wf(),
            final(self).wf(),
            (final(queue)@, final(self)@, signal) == crate::state::send_next(
                old(queue)@,
                old(self)@,
            ),
    {
        proof {
            crate::state::lemma_send_next_wf(queue@, old(self)@);
        }
        queue.count(block, 1);
        self.phase = SendPhase::Claim;
        Signal::Spin
    }

    /// Writes the message into the claimed slot.
    fn store_value(
        &mut self,
        queue: &mut Queue<T>,
        block: usize,
        index: usize,
        pending: Option<(usize, usize)>,
    ) -> (signal: Signal)
        requires
            old(queue).wf(),
            old(self).wf(),
            old(self)@.ready(old(queue)@),
            old(self)@.phase == (SendPhase::Store { block, index, pending }),
        ensures
            final(queue).wf(),
            final(self).wf(),
            (final(queue)@, final(self)@, signal) == crate::state::send_next(
                old(queue)@,
                old(self)@,
            ),
    {
        proof {
            crate::state::lemma_send_next_wf(queue@, old(self)@);
        }
        let value = self.value.take();
        if let Some(message) = value {
            let ghost before = *queue;
            let k: usize = block / BLOCK_ALIGN - 1;
            queue.blocks[k].slots[index].write(message);
            proof {
                lemma_flat_update(before.blocks@, queue.blocks@, k as int, index as int);
                assert(counts(queue.blocks@) =~= counts(before.blocks@));
            }
        }
        self.phase = SendPhase::Wake { pending };
        Signal::Continue
    }

    /// Notifies the receiver that a message is there.
    fn wake(&mut self, queue: &mut Queue<T>, pending: Option<(usize, usize)>) -> (signal: Signal)
        requires
            old(queue).wf(),
            old(self).wf(),
            old(self)@.ready(old(queue)@),
            old(self)@.phase == (SendPhase::Wake { pending }),
        ensures
            final(queue).wf(),
            final(self).wf(),
            (final(queue)@, final(self)@, signal) == crate::state::send_next(
                old(queue)@,
                old(self)@,
            ),
    {
        queue.parker.unpark();
        match pending {
            Some((block, count)) => {
                self.phase = SendPhase::Settle { block, count };
                Signal::Continue
            },
            None => {
                self.phase = SendPhase::Sent;
                Signal::Done
            },
        }
    }

    /// Counts the senders that came to a block that was used up.
    fn settle(&mut self, queue: &mut Queue<T>, block: usize, count: usize) -> (signal: Signal)
        requires
            old(queue).wf(),
            old(self).wf(),
            old(self)@.ready(old(queue)@),
            old(self)@.phase == (SendPhase::Settle { block, count }),
        ensures
            final(queue).wf(),
            final(self).wf(),
            (final(queue)@, final(self)@, signal) == crate::state::send_next(
                old(queue)@,
                old(self)@,
            ),
    {
        proof {
            crate::state::lemma_send_next_wf(queue@, old(self)@);
        }
        queue.count(block, count as isize);
        self.phase = SendPhase::Sent;
        Signal::Done
    }

    /// Whether the memory has room for the next access of the send: to claim a slot it needs an
    /// index, to link a block, where none is linked yet, an address.
    pub fn can_step(&self, queue: &Queue<T>) -> (able: bool)
        requires
            queue.wf(),
            self@.ok(queue@),
        ensures
            able == self@.ready(queue@),
    {
        match self.phase {
            SendPhase::Claim => queue.can_claim(),
            SendPhase::Link { block } => queue.link_word(block) != 0 || queue.can_grow(),
            _ => true,
        }
    }

    /// Makes the next access of the send to the memory of the queue. The signal says how the
    /// thread goes on; after `Done` the send is over, and `finish` gives its result.
    pub fn step(&mut self, queue: &mut Queue<T>) -> (signal: Signal)
        requires
            old(queue).wf(),
            old(self).wf(),
            old(self)@.ready(old(queue)@),
        ensures
            final(queue).wf(),
            final(self).wf(),
            (final(queue)@, final(self)@, signal) == crate::state::send_next(
                old(queue)@,
                old(self)@,
            ),
    {
        match self.phase {
            SendPhase::Claim => self.claim(queue),
            SendPhase::LoadLink { block } => self.load_link(queue, block),
            SendPhase::Link { block } => self.link(queue, block),
            SendPhase::LoadTail { block, next } => self.load_tail(queue, block, next),
            SendPhase::Swing { block, next, tail } => self.swing(queue, block, next, tail),
            SendPhase::Discard { block } => self.discard(queue, block),
            SendPhase::Store { block, index, pending } => {
                self.store_value(queue, block, index, pending)
            },
            SendPhase::Wake { pending } => self.wake(queue, pending),
            SendPhase::Settle { block, count } => self.settle(queue, block, count),
            SendPhase::Sent => Signal::Done,
            SendPhase::Refused => Signal::Done,
        }
    }

    /// The result of a send that is over: the message comes back where it was refused.
    pub fn finish(self) -> (res: Result<(), T>)
        requires
            self@.over(),
        ensures
            res == (match self@.value {
                Some(value) => Err::<(), T>(value),
                None => Ok(()),
            }),
            res == self@.result(),
    {
        match self.value {
            Some(value) => Err(value),
            None => Ok(()),
        }
    }
}

/// A receive under way, which makes one access to the memory of the queue at a time.
pub struct RecvOp<T> {
    phase: RecvPhase,
    closed: bool,
    value: Option<T>,
}

impl<T> RecvOp<T> {
    /// Where the receive stands.
    pub closed spec fn view(&self) -> RecvState<T> {
        RecvState { phase: self.phase, closed: self.closed, value: self.value }
    }

    /// A receive that has not touched the queue yet.
    pub fn new() -> (op: RecvOp<T>)
        ensures
            op@ == RecvState::<T>::begun(),
    {
        RecvOp { phase: RecvPhase::Check, closed: false, value: None }
    }

    /// Whether the receive is over.
    pub fn is_over(&self) -> (over: bool)
        ensures
            over == (self@.phase is Done),
    {
        match self.phase {
            RecvPhase::Done => true,
            _ => false,
        }
    }

    /// Looks whether all senders have hung up.
    fn check(&mut self, queue: &mut Queue<T>)
        requires
            old(queue).wf(),
            old(self)@.ok(old(queue)@),
            old(self)@.phase == RecvPhase::Check,
        ensures
            final(queue).wf(),
            final(self)@.ok(final(queue)@),
            (final(queue)@, final(self)@) == crate::state::recv_next(old(queue)@, old(self)@),
    {
        proof {
            crate::state::lemma_recv_next_wf(queue@, self@);
        }
        self.closed = queue.disconnected;
        self.phase = RecvPhase::Head;
    }

    /// Reads the head.
    fn read_head(&mut self, queue: &mut Queue<T>)
        requires
            old(queue).wf(),
            old(self)@.ok(old(queue)@),
            old(self)@.phase == RecvPhase::Head,
        ensures
            final(queue).wf(),
            final(self)@.ok(final(queue)@),
            (final(queue)@, final(self)@) == crate::state::recv_next(old(queue)@, old(self)@),
    {
        proof {
            crate::state::lemma_recv_next_wf(queue@, self@);
        }
        let (block, index, _) = Block::<T>::decode(load(&queue.head));
        self.phase = if block == 0 {
            RecvPhase::Done
        } else if index == BLOCK_SIZE {
            RecvPhase::Next { block }
        } else {
            RecvPhase::Slot { block, index }
        };
    }

    /// Looks for the block behind `block`.
    fn load_next(&mut self, queue: &mut Queue<T>, block: usize)
        requires
            old(queue).wf(),
            old(self)@.ok(old(queue)@),
            old(self)@.phase == (RecvPhase::Next { block }),
        ensures
            final(queue).wf(),
            final(self)@.ok(final(queue)@),
            (final(queue)@, final(self)@) == crate::state::recv_next(old(queue)@, old(self)@),
    {
        proof {
            crate::state::lemma_recv_next_wf(queue@, self@);
        }
        let next: usize = queue.link_word(block);
        self.phase = if next == 0 {
            RecvPhase::Done
        } else {
            RecvPhase::Advance { block, next }
        };
    }

    /// Leaves `block` for `next`.
    fn advance(&mut self, queue: &mut Queue<T>, block: usize, next: usize)
        requires
            old(queue).wf(),
            old(self)@.ok(old(queue)@),
            old(self)@.phase == (RecvPhase::Advance { block, next }),
        ensures
            final(queue).wf(),
            final(self)@.ok(final(queue)@),
            (final(queue)@, final(self)@) == crate::state::recv_next(old(queue)@, old(self)@),
    {
        proof {
            crate::state::lemma_recv_next_wf(queue@, self@);
        }
        queue.leave(block, next);
        self.phase = RecvPhase::Slot { block: next, index: 0 };
    }

    /// Reads the slot.
    fn read_slot(&mut self, queue: &mut Queue<T>, block: usize, index: usize)
        requires
            old(queue).wf(),
            old(self)@.ok(old(queue)@),
            old(self)@.phase == (RecvPhase::Slot { block, index }),
        ensures
            final(queue).wf(),
            final(self)@.ok(final(queue)@),
            (final(queue)@, final(self)@) == crate::state::recv_next(old(queue)@, old(self)@),
    {
        proof {
            crate::state::lemma_recv_next_wf(queue@, self@);
        }
        self.value = queue.take(block, index);
        self.phase = RecvPhase::Done;
    }

    /// Makes the next access of the receive to the memory of the queue.
    ///
    /// Whether all senders have hung up is read first: if they had, nothing is sent any more,
    /// and a slot that is then found empty means that every message has been received.
    pub fn step(&mut self, queue: &mut Queue<T>)
        requires
            old(queue).wf(),
            old(self)@.ok(old(queue)@),
        ensures
            final(queue).wf(),
            final(self)@.ok(final(queue)@),
            (final(queue)@, final(self)@) == crate::state::recv_next(old(queue)@, old(self)@),
    {
        match self.phase {
            RecvPhase::Check => self.check(queue),
            RecvPhase::Head => self.read_head(queue),
            RecvPhase::Next { block } => self.load_next(queue, block),
            RecvPhase::Advance { block, next } => self.advance(queue, block, next),
            RecvPhase::Slot { block, index } => self.read_slot(queue, block, index),
            RecvPhase::Done => {},
        }
    }

    /// The result of a receive that is over.
    pub fn finish(self) -> (res: Result<Option<T>, ()>)
        requires
            self@.phase is Done,
        ensures
            res == (match self@.value {
                Some(value) => Ok::<Option<T>, ()>(Some(value)),
                None => if self@.closed {
                    Err(())
                } else {
                    Ok(None)
                },
            }),
            res == self@.result(),
    {
        match self.value {
            Some(value) => Ok(Some(value)),
            None => if self.closed {
                Err(())
            } else {
                Ok(None)
            },
        }
    }
}

} // verus!
