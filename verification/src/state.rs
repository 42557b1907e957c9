//! The state of a queue as mathematics: what its memory means, and what each single access of a
//! sender or of the receiver does to it.
//!
//! Blocks are numbered from 1 in the order in which they are linked, and 0 stands for no block.
//! The address of a block is its number times `BLOCK_ALIGN`. The slots of all blocks form one
//! row: slot `i` of block `n` has the ticket `(n - 1) * BLOCK_SIZE + i`.

use crate::block::SlotState;
use crate::parker::Parker;
use vstd::prelude::*;

verus! {

/// The memory that the senders and the receiver share.
pub struct QueueState<T> {
    /// The block and the index that the next sender gets, unless the receiver has hung up.
    pub tail: Option<(int, int)>,
    /// The block and the index that the receiver reads next.
    pub head: (int, int),
    /// Whether all senders have hung up.
    pub closed: bool,
    /// Where the receiver sleeps.
    pub parker: Parker,
    /// How many blocks have been linked.
    pub blocks: int,
    /// The slots of all blocks.
    pub slots: Seq<SlotState<T>>,
    /// For each block, the count of the threads that are done with it.
    pub pending: Seq<int>,
    /// How many slots senders have claimed.
    pub issued: int,
}

/// Where a send stands: what it does when it next touches the shared memory.
#[derive(PartialEq, Eq, Clone, Copy, Debug)]
pub enum SendPhase {
    /// Take the next index of the tail.
    Claim,
    /// The block was used up, or there was none: look for a block behind it.
    LoadLink { block: usize },
    /// There was none: link a new block behind it.
    Link { block: usize },
    /// Look whether the tail is still at the block.
    LoadTail { block: usize, next: usize },
    /// It is: move the tail to the next block.
    Swing { block: usize, next: usize, tail: usize },
    /// Another send has moved the tail: count this send as done with the block.
    Discard { block: usize },
    /// Write the message into the claimed slot.
    Store { block: usize, index: usize, pending: Option<(usize, usize)> },
    /// Notify the receiver.
    Wake { pending: Option<(usize, usize)> },
    /// Count the senders that came to a used up block.
    Settle { block: usize, count: usize },
    /// The message has been sent.
    Sent,
    /// The receiver has hung up.
    Refused,
}

/// A send under way: where it stands, and the message until it is stored.
pub struct SendState<T> {
    pub phase: SendPhase,
    pub value: Option<T>,
}

/// What the thread that runs a send does before the next access.
#[derive(PartialEq, Eq, Structural, Clone, Copy, Debug)]
pub enum Signal {
    /// Go on.
    Continue,
    /// Let the processor rest for a moment, then go on.
    Spin,
    /// Stay away for a while, then go on.
    Yield,
    /// The send is over.
    Done,
}

/// Where a receive stands: what it does when it next touches the shared memory.
#[derive(PartialEq, Eq, Structural, Clone, Copy, Debug)]
pub enum RecvPhase {
    /// Look whether all senders have hung up.
    Check,
    /// Read the head.
    Head,
    /// The block has been read to its end: look for the next one.
    Next { block: usize },
    /// Leave the block for the next one.
    Advance { block: usize, next: usize },
    /// Read the slot.
    Slot { block: usize, index: usize },
    /// The receive is over.
    Done,
}

/// A receive under way: where it stands, whether all senders had hung up when it began, and the
/// message that it found.
pub struct RecvState<T> {
    pub phase: RecvPhase,
    pub closed: bool,
    pub value: Option<T>,
}

/// The address of a block.
pub open spec fn address(n: int) -> usize {
    (4096 * n) as usize
}

/// The number of the block at an address.
pub open spec fn number(address: usize) -> int {
    address as int / 4096
}

impl<T> QueueState<T> {
    /// The memory of a queue that nothing has been sent to.
    pub open spec fn empty() -> QueueState<T> {
        QueueState {
            tail: Some((0int, 0int)),
            head: (0int, 0int),
            closed: false,
            parker: Parker { state: crate::parker::ParkState::Empty, wake: false },
            blocks: 0,
            slots: Seq::empty(),
            pending: Seq::empty(),
            issued: 0,
        }
    }

    /// How many messages have been received.
    pub open spec fn received(self) -> int {
        if self.head.0 == 0 {
            0
        } else {
            256 * (self.head.0 - 1) + self.head.1
        }
    }

    /// How many blocks senders have claimed slots of.
    pub open spec fn used(self) -> int {
        (self.issued + 255) / 256
    }

    /// The messages on their way, oldest first: `None` where a sender has claimed a slot and has
    /// not written the message yet.
    pub open spec fn queued(self) -> Seq<Option<T>> {
        Seq::new(
            (self.issued - self.received()) as nat,
            |j: int|
                match self.slots[self.received() + j] {
                    SlotState::Full(value) => Some(value),
                    _ => None,
                },
        )
    }

    /// What the link behind block `n` holds. The link behind no block is the head.
    pub open spec fn link(self, n: int) -> usize {
        if n == 0 {
            (4096 * self.head.0 + 2 * self.head.1) as usize
        } else if n < self.blocks {
            address(n + 1)
        } else {
            0
        }
    }

    /// How large the count of block `n` may become: less while the tail is at the block, since
    /// senders may still come to it.
    pub open spec fn bound(self, n: int) -> int {
        if self.tail matches Some(tail) && tail.0 == n {
            4096
        } else {
            8192
        }
    }

    /// 1 as long as the receiver has not left block `n`.
    pub open spec fn unread(self, n: int) -> int {
        if self.head.0 <= n {
            1
        } else {
            0
        }
    }

    /// The counts of the blocks are in bounds, and nobody has counted on a block that no slot has
    /// been claimed of.
    pub open spec fn counts_wf(self) -> bool {
        &&& self.pending.len() == self.blocks
        &&& forall|n: int|
            1 <= n <= self.blocks ==> {
                &&& 0 <= #[trigger] self.pending[n - 1]
                &&& self.pending[n - 1] + self.unread(n) <= self.bound(n)
                &&& n > self.used() ==> self.pending[n - 1] == 0
            }
    }

    /// The tail fits the number of claimed slots.
    pub open spec fn tail_wf(self) -> bool {
        self.tail matches Some((n, i)) ==> {
            &&& n == self.used()
            &&& 0 <= i <= 2047
            &&& n == 0 && self.blocks == 1 ==> i >= 1
            &&& n > 0 ==> i >= 1 && self.issued == 256 * (n - 1) + (if i < 256 {
                i
            } else {
                256
            })
            &&& n > 0 && self.blocks == n + 1 ==> i >= 257
        }
    }

    /// The head points to the next slot to read.
    pub open spec fn head_wf(self) -> bool {
        &&& self.blocks == 0 ==> self.head == (0int, 0int)
        &&& self.blocks > 0 ==> 1 <= self.head.0 <= self.blocks && 0 <= self.head.1 <= 256
        &&& self.received() <= self.issued
    }

    /// Slots are taken up to the head, claimed up to the number of tickets, and vacant behind.
    pub open spec fn slots_wf(self) -> bool {
        &&& self.slots.len() == 256 * self.blocks
        &&& forall|t: int| 0 <= t < self.received() ==> #[trigger] self.slots[t] is Taken
        &&& forall|t: int|
            self.received() <= t < self.issued ==> !(#[trigger] self.slots[t] is Taken)
        &&& forall|t: int|
            self.issued <= t < self.slots.len() ==> #[trigger] self.slots[t] is Vacant
    }

    /// What holds of the memory at all times.
    pub open spec fn wf(self) -> bool {
        &&& 0 <= self.issued
        &&& self.used() <= self.blocks <= self.used() + 1
        &&& 4096 * (self.blocks + 1) <= usize::MAX
        &&& self.tail_wf()
        &&& self.head_wf()
        &&& self.slots_wf()
        &&& self.counts_wf()
    }

    /// There is an index left for one more sender to take.
    pub open spec fn can_claim(self) -> bool {
        self.tail matches Some((n, i)) ==> i < 2047
    }

    /// There is an address left for one more block.
    pub open spec fn can_grow(self) -> bool {
        4096 * (self.blocks + 2) <= usize::MAX
    }

    /// The next sender has to link a block: there is none behind the one that the tail is at, and
    /// that one is used up.
    pub open spec fn must_grow(self) -> bool {
        self.tail matches Some((n, _)) && n == self.blocks && !self.fits()
    }

    /// There is room for one more send to run to its end. A send that is refused needs none, and
    /// one that has to link no block needs no address for it.
    pub open spec fn has_room(self) -> bool {
        self.tail is Some ==> self.can_claim() && (self.must_grow() ==> self.can_grow())
    }

    /// A block can be linked behind the one at `block`, or is linked there already.
    pub open spec fn can_link(self, block: usize) -> bool {
        self.link(number(block)) != 0 || self.can_grow()
    }

    /// The memory after a block has been linked behind the last one.
    pub open spec fn grown(self) -> QueueState<T> {
        QueueState {
            head: if self.blocks == 0 {
                (1int, 0int)
            } else {
                self.head
            },
            blocks: self.blocks + 1,
            slots: self.slots + Seq::new(256, |i: int| SlotState::<T>::Vacant),
            pending: self.pending.push(0),
            ..self
        }
    }

    /// The memory after `count` threads have been counted as done with the block at `block`.
    pub open spec fn counted(self, block: usize, count: int) -> QueueState<T> {
        let k = number(block) - 1;
        QueueState { pending: self.pending.update(k, self.pending[k] + count), ..self }
    }

    /// The slot that a tagged word points to.
    pub open spec fn ticket(block: usize, index: usize) -> int {
        256 * (number(block) - 1) + index
    }
}

/// The memory after the next index of the tail has been taken, and where the send then stands.
pub open spec fn claimed<T>(m: QueueState<T>) -> (QueueState<T>, SendPhase) {
    match m.tail {
        None => (m, SendPhase::Refused),
        Some((n, i)) => {
            let tail = Some((n, i + 1));
            if n > 0 && i < 256 {
                (
                    QueueState { tail, issued: m.issued + 1, ..m },
                    SendPhase::Store { block: address(n), index: i as usize, pending: None },
                )
            } else {
                (QueueState { tail, ..m }, SendPhase::LoadLink { block: address(n) })
            }
        },
    }
}

/// One access of a send to the shared memory: the memory and the send afterwards.
pub open spec fn send_next<T>(m: QueueState<T>, s: SendState<T>) -> (
    QueueState<T>,
    SendState<T>,
    Signal,
) {
    let at = |phase: SendPhase| SendState { phase, value: s.value };
    match s.phase {
        SendPhase::Claim => {
            let (after, phase) = claimed(m);
            (
                after,
                at(phase),
                if phase == SendPhase::Refused {
                    Signal::Done
                } else {
                    Signal::Continue
                },
            )
        },
        SendPhase::LoadLink { block } => {
            let next = m.link(number(block));
            if next == 0 {
                (m, at(SendPhase::Link { block }), Signal::Continue)
            } else {
                (m, at(SendPhase::LoadTail { block, next }), Signal::Continue)
            }
        },
        SendPhase::Link { block } => {
            let next = m.link(number(block));
            if next == 0 {
                (
                    m.grown(),
                    at(SendPhase::LoadTail { block, next: address(m.blocks + 1) }),
                    Signal::Continue,
                )
            } else {
                (m, at(SendPhase::LoadTail { block, next }), Signal::Continue)
            }
        },
        SendPhase::LoadTail { block, next } => {
            match m.tail {
                None => (m, at(SendPhase::Refused), Signal::Done),
                Some((n, i)) => if address(n) == block {
                    let tail = (4096 * n + 2 * i) as usize;
                    (m, at(SendPhase::Swing { block, next, tail }), Signal::Continue)
                } else if block != 0 {
                    (m, at(SendPhase::Discard { block }), Signal::Continue)
                } else {
                    (m, at(SendPhase::Claim), Signal::Spin)
                },
            }
        },
        SendPhase::Swing { block, next, tail } => {
            let index = crate::block::index_of(tail as int);
            if m.tail == Some((number(tail), index)) {
                let pending = if block != 0 {
                    (block, (index - 256) as usize)
                } else {
                    (next, 1usize)
                };
                (
                    QueueState {
                        tail: Some((number(next), 1int)),
                        issued: m.issued + 1,
                        ..m
                    },
                    at(SendPhase::Store { block: next, index: 0, pending: Some(pending) }),
                    Signal::Continue,
                )
            } else {
                (m, at(SendPhase::LoadTail { block, next }), Signal::Yield)
            }
        },
        SendPhase::Discard { block } => {
            (m.counted(block, 1), at(SendPhase::Claim), Signal::Spin)
        },
        SendPhase::Store { block, index, pending } => {
            let t = QueueState::<T>::ticket(block, index);
            (
                QueueState { slots: m.slots.update(t, SlotState::Full(s.value->0)), ..m },
                SendState { phase: SendPhase::Wake { pending }, value: None },
                Signal::Continue,
            )
        },
        SendPhase::Wake { pending } => {
            let after = QueueState { parker: crate::parker::unparked(m.parker), ..m };
            match pending {
                Some((block, count)) => (
                    after,
                    at(SendPhase::Settle { block, count }),
                    Signal::Continue,
                ),
                None => (after, at(SendPhase::Sent), Signal::Done),
            }
        },
        SendPhase::Settle { block, count } => {
            (m.counted(block, count as int), at(SendPhase::Sent), Signal::Done)
        },
        SendPhase::Sent => (m, s, Signal::Done),
        SendPhase::Refused => (m, s, Signal::Done),
    }
}

impl<T> QueueState<T> {
    /// A send has come to block `n` when it was used up, or when there was no block yet.
    pub open spec fn overshot(self, block: usize) -> bool {
        let n = number(block);
        &&& block as int % 4096 == 0
        &&& n <= self.used()
        &&& self.tail matches Some((b, i)) ==> b == n ==> (if n == 0 {
            i >= 1
        } else {
            i >= 257
        })
    }

    /// As long as the tail is at the block, the block behind it is linked and is `next`.
    pub open spec fn linked(self, block: usize, next: usize) -> bool {
        let n = number(block);
        (self.tail matches Some(tail) && tail.0 == n) ==> self.blocks == n + 1 && next == address(
            n + 1,
        )
    }

    /// `count` threads can be counted as done with the block.
    pub open spec fn countable(self, block: usize, count: int) -> bool {
        let n = number(block);
        &&& block as int % 4096 == 0
        &&& 1 <= n <= self.used()
        &&& 1 <= count <= 2047
        &&& self.pending[n - 1] + count + self.unread(n) <= self.bound(n)
    }

    /// As `countable`, where there is anything to count.
    pub open spec fn owed(self, pending: Option<(usize, usize)>) -> bool {
        pending matches Some((block, count)) ==> self.countable(block, count as int)
    }
}

impl<T> SendState<T> {
    /// A send that has not touched the shared memory yet.
    pub open spec fn begun(value: T) -> SendState<T> {
        SendState { phase: SendPhase::Claim, value: Some(value) }
    }

    /// What a send that is over returns.
    pub open spec fn result(self) -> Result<(), T> {
        match self.value {
            Some(value) => Err(value),
            None => Ok(()),
        }
    }

    /// Whether the send is over.
    pub open spec fn over(self) -> bool {
        self.phase == SendPhase::Sent || self.phase == SendPhase::Refused
    }

    /// What a send knows of the words and the slots, wherever it stands.
    pub open spec fn stands(self, m: QueueState<T>) -> bool {
        match self.phase {
            SendPhase::Claim => self.value is Some,
            SendPhase::LoadLink { block } => self.value is Some && m.overshot(block),
            SendPhase::Link { block } => self.value is Some && m.overshot(block),
            SendPhase::LoadTail { block, next } => {
                &&& self.value is Some
                &&& m.overshot(block)
                &&& m.linked(block, next)
            },
            SendPhase::Swing { block, next, tail } => {
                &&& self.value is Some
                &&& m.overshot(block)
                &&& m.linked(block, next)
                &&& next as int % 4096 == 0
                &&& tail as int % 2 == 0
                &&& number(tail) == number(block)
                &&& block != 0 ==> crate::block::index_of(tail as int) >= 257
            },
            SendPhase::Discard { block } => self.value is Some,
            SendPhase::Store { block, index, pending } => {
                &&& self.value is Some
                &&& block as int % 4096 == 0
                &&& 1 <= number(block) <= m.blocks
                &&& index < 256
                &&& m.received() <= QueueState::<T>::ticket(block, index) < m.issued
                &&& m.slots[QueueState::<T>::ticket(block, index)] is Vacant
            },
            SendPhase::Wake { .. } => self.value is None,
            SendPhase::Settle { .. } => self.value is None,
            SendPhase::Sent => self.value is None,
            SendPhase::Refused => self.value is Some,
        }
    }

    /// What a send has still to add to the count of a block can be added.
    pub open spec fn can_count(self, m: QueueState<T>) -> bool {
        match self.phase {
            SendPhase::Discard { block } => m.countable(block, 1),
            SendPhase::Store { pending, .. } => m.owed(pending),
            SendPhase::Wake { pending } => m.owed(pending),
            SendPhase::Settle { block, count } => m.countable(block, count as int),
            _ => true,
        }
    }

    /// What a send knows of the memory, wherever it stands.
    pub open spec fn ok(self, m: QueueState<T>) -> bool {
        self.stands(m) && self.can_count(m)
    }

    /// What a send needs for its next access: to claim or to link, there has to be room.
    pub open spec fn ready(self, m: QueueState<T>) -> bool {
        &&& self.ok(m)
        &&& self.phase == SendPhase::Claim ==> m.can_claim()
        &&& self.phase matches SendPhase::Link { block } ==> m.can_link(block)
    }
}

/// One access of a receive to the shared memory: the memory and the receive afterwards.
pub open spec fn recv_next<T>(m: QueueState<T>, r: RecvState<T>) -> (
    QueueState<T>,
    RecvState<T>,
) {
    let at = |phase: RecvPhase| RecvState { phase, ..r };
    match r.phase {
        RecvPhase::Check => {
            (m, RecvState { phase: RecvPhase::Head, closed: m.closed, value: r.value })
        },
        RecvPhase::Head => {
            let block = address(m.head.0);
            if block == 0 {
                (m, at(RecvPhase::Done))
            } else if m.head.1 == 256 {
                (m, at(RecvPhase::Next { block }))
            } else {
                (m, at(RecvPhase::Slot { block, index: m.head.1 as usize }))
            }
        },
        RecvPhase::Next { block } => {
            let next = m.link(number(block));
            if next == 0 {
                (m, at(RecvPhase::Done))
            } else {
                (m, at(RecvPhase::Advance { block, next }))
            }
        },
        RecvPhase::Advance { block, next } => {
            (
                QueueState { head: (number(next), 0int), ..m.counted(block, 1) },
                at(RecvPhase::Slot { block: next, index: 0 }),
            )
        },
        RecvPhase::Slot { block, index } => {
            let t = QueueState::<T>::ticket(block, index);
            match m.slots[t] {
                SlotState::Full(value) => (
                    QueueState {
                        head: (number(block), index + 1),
                        slots: m.slots.update(t, SlotState::Taken),
                        ..m
                    },
                    RecvState { phase: RecvPhase::Done, closed: r.closed, value: Some(value) },
                ),
                _ => (m, at(RecvPhase::Done)),
            }
        },
        RecvPhase::Done => (m, r),
    }
}

impl<T> RecvState<T> {
    /// A receive that has not touched the shared memory yet.
    pub open spec fn begun() -> RecvState<T> {
        RecvState { phase: RecvPhase::Check, closed: false, value: None }
    }

    /// What a receive that is over returns.
    pub open spec fn result(self) -> Result<Option<T>, ()> {
        match self.value {
            Some(value) => Ok(Some(value)),
            None => if self.closed {
                Err(())
            } else {
                Ok(None)
            },
        }
    }

    /// What a receive knows of the memory, wherever it stands.
    pub open spec fn ok(self, m: QueueState<T>) -> bool {
        &&& !(self.phase is Done) ==> self.value is None
        &&& match self.phase {
            RecvPhase::Next { block } => {
                m.head.0 > 0 && block == address(m.head.0) && m.head.1 == 256
            },
            RecvPhase::Advance { block, next } => {
                &&& m.head.0 > 0
                &&& block == address(m.head.0)
                &&& m.head.1 == 256
                &&& m.head.0 < m.blocks
                &&& next == address(m.head.0 + 1)
            },
            RecvPhase::Slot { block, index } => {
                &&& m.head.0 > 0
                &&& block == address(m.head.0)
                &&& index == m.head.1
                &&& index < 256
            },
            _ => true,
        }
    }
}

/// An access of a receive keeps the memory well formed, and what the receive knows of it.
pub proof fn lemma_recv_next_wf<T>(m: QueueState<T>, r: RecvState<T>)
    requires
        m.wf(),
        r.ok(m),
    ensures
        recv_next(m, r).0.wf(),
        recv_next(m, r).1.ok(recv_next(m, r).0),
{
}

/// An access of a send keeps the memory well formed.
pub proof fn lemma_send_next_wf<T>(m: QueueState<T>, s: SendState<T>)
    requires
        m.wf(),
        s.ready(m),
    ensures
        send_next(m, s).0.wf(),
{
}

/// How many accesses a send that runs alone has left, at most.
pub open spec fn rank(phase: SendPhase) -> nat {
    match phase {
        SendPhase::Claim => 9,
        SendPhase::LoadLink { .. } => 8,
        SendPhase::Link { .. } => 7,
        SendPhase::LoadTail { .. } => 6,
        SendPhase::Swing { .. } => 5,
        SendPhase::Discard { .. } => 10,
        SendPhase::Store { .. } => 4,
        SendPhase::Wake { .. } => 3,
        SendPhase::Settle { .. } => 2,
        SendPhase::Sent => 0,
        SendPhase::Refused => 0,
    }
}

impl<T> QueueState<T> {
    /// Whether the next sender finds a slot in the block that the tail is at.
    pub open spec fn fits(self) -> bool {
        self.tail matches Some((n, i)) && n > 0 && i < 256
    }

    /// The memory when it has a block behind the one that the tail is at.
    pub open spec fn extended(self) -> QueueState<T> {
        if self.tail matches Some((n, _)) && n == self.blocks {
            self.grown()
        } else {
            self
        }
    }

    /// The memory after a sender that nobody else came in between has claimed a slot: the next
    /// one of the block that the tail is at, or the first one of the block behind it.
    pub open spec fn with_claim(self) -> QueueState<T> {
        match self.tail {
            None => self,
            Some((n, i)) => if self.fits() {
                QueueState { tail: Some((n, i + 1)), issued: self.issued + 1, ..self }
            } else {
                QueueState {
                    tail: Some((n + 1, 1int)),
                    issued: self.issued + 1,
                    ..self.extended()
                }
            },
        }
    }

    /// The block on which such a sender counts, and how much: every sender that came to the block
    /// that it leaves, itself included; 1 on the first block of all.
    pub open spec fn settled(self) -> Option<(int, int)> {
        match self.tail {
            None => None,
            Some((n, i)) => if self.fits() {
                None
            } else if n == 0 {
                Some((1int, 1int))
            } else {
                Some((n, i + 1 - 256))
            },
        }
    }

    /// The memory after such a sender has written its message.
    pub open spec fn with_message(self, value: T) -> QueueState<T> {
        let m = self.with_claim();
        QueueState { slots: m.slots.update(self.issued, SlotState::Full(value)), ..m }
    }

    /// The memory after such a sender has notified the receiver.
    pub open spec fn with_notice(self, value: T) -> QueueState<T> {
        QueueState {
            parker: crate::parker::unparked(self.parker),
            ..self.with_message(value)
        }
    }

    /// The memory after a whole send of `value` to a receiver that has not hung up.
    pub open spec fn with_sent(self, value: T) -> QueueState<T> {
        let m = self.with_notice(value);
        match self.settled() {
            None => m,
            Some((n, count)) => QueueState {
                pending: m.pending.update(n - 1, m.pending[n - 1] + count),
                ..m
            },
        }
    }

    /// What a whole send of `value` returns, and the memory after it.
    pub open spec fn send_outcome(self, value: T) -> (Result<(), T>, QueueState<T>) {
        if self.tail is None {
            (Err(value), self)
        } else {
            (Ok(()), self.with_sent(value))
        }
    }
}

/// How far a send of `value` has come that began when the memory was `start` and has run alone
/// since then.
pub open spec fn alone<T>(
    start: QueueState<T>,
    value: T,
    m: QueueState<T>,
    s: SendState<T>,
) -> bool {
    let tried = match start.tail {
        Some((n, i)) => Some((n, i + 1)),
        None => None,
    };
    let came = |block: usize|
        start.tail matches Some((n, _)) && !start.fits() && block == address(n);
    &&& m.wf()
    &&& s.ok(m)
    &&& match s.phase {
        SendPhase::Claim => m == start && s.value == Some(value),
        SendPhase::Refused => start.tail is None && m == start && s.value == Some(value),
        SendPhase::LoadLink { block } | SendPhase::Link { block } => {
            &&& s.value == Some(value)
            &&& came(block)
            &&& m == QueueState { tail: tried, ..start }
        },
        SendPhase::LoadTail { block, next } => {
            &&& s.value == Some(value)
            &&& came(block)
            &&& m == QueueState { tail: tried, ..start.extended() }
        },
        SendPhase::Swing { block, next, tail } => {
            &&& s.value == Some(value)
            &&& came(block)
            &&& m == QueueState { tail: tried, ..start.extended() }
            &&& m.tail == Some((number(tail), crate::block::index_of(tail as int)))
        },
        SendPhase::Discard { .. } => false,
        SendPhase::Store { block, index, pending } => {
            &&& start.tail is Some
            &&& s.value == Some(value)
            &&& m == start.with_claim()
            &&& QueueState::<T>::ticket(block, index) == start.issued
            &&& owed_as(pending, start.settled())
        },
        SendPhase::Wake { pending } => {
            &&& start.tail is Some
            &&& m == start.with_message(value)
            &&& owed_as(pending, start.settled())
        },
        SendPhase::Settle { block, count } => {
            &&& start.tail is Some
            &&& m == start.with_notice(value)
            &&& owed_as(Some((block, count)), start.settled())
        },
        SendPhase::Sent => start.tail is Some && m == start.with_sent(value),
    }
}

/// The count that a send has still to add is `count` on block `n`.
pub open spec fn owed_as(pending: Option<(usize, usize)>, count: Option<(int, int)>) -> bool {
    match pending {
        None => count is None,
        Some((block, amount)) => count == Some((number(block), amount as int)),
    }
}

/// The next access of a send that runs alone can be made, keeps what is known of the send, and
/// brings it nearer to its end.
spec fn goes_on<T>(start: QueueState<T>, value: T, m: QueueState<T>, s: SendState<T>) -> bool {
    let (after, then, signal) = send_next(m, s);
    &&& s.ready(m)
    &&& alone(start, value, after, then)
    &&& rank(then.phase) < rank(s.phase)
    &&& signal == Signal::Done <==> then.over()
}

/// As `lemma_alone`, for the send that claims.
proof fn lemma_alone_claim<T>(start: QueueState<T>, value: T, m: QueueState<T>, s: SendState<T>)
    requires
        start.wf(),
        start.has_room(),
        alone(start, value, m, s),
        s.phase is Claim,
    ensures
        goes_on(start, value, m, s),
{
    lemma_send_next_wf(m, s);
}

/// As `lemma_alone`, for the send that has come to the end of the blocks.
proof fn lemma_alone_link<T>(start: QueueState<T>, value: T, m: QueueState<T>, s: SendState<T>)
    requires
        start.wf(),
        start.has_room(),
        alone(start, value, m, s),
        s.phase is LoadLink || s.phase is Link,
    ensures
        goes_on(start, value, m, s),
{
    lemma_send_next_wf(m, s);
}

/// As `lemma_alone`, for the send that looks at the tail.
proof fn lemma_alone_look<T>(start: QueueState<T>, value: T, m: QueueState<T>, s: SendState<T>)
    requires
        start.wf(),
        start.has_room(),
        alone(start, value, m, s),
        s.phase is LoadTail,
    ensures
        goes_on(start, value, m, s),
{
    if let Some((n, i)) = m.tail {
        let tail = (4096 * n + 2 * i) as usize;
        assert(4096 * (n + 1) <= usize::MAX);
        assert(number(tail) == n);
        assert(crate::block::index_of(tail as int) == i);
        assert(tail as int % 2 == 0);
        assert(s.ready(m));
        let then = send_next(m, s).1;
        assert(then.phase is Swing);
        assert(then.stands(m));
    }
}

/// As `lemma_alone`, for the send that moves the tail.
proof fn lemma_alone_swing<T>(start: QueueState<T>, value: T, m: QueueState<T>, s: SendState<T>)
    requires
        start.wf(),
        start.has_room(),
        alone(start, value, m, s),
        s.phase is Swing,
    ensures
        goes_on(start, value, m, s),
{
    lemma_send_next_wf(m, s);
}

/// As `lemma_alone`, for the send that writes its message.
proof fn lemma_alone_store<T>(start: QueueState<T>, value: T, m: QueueState<T>, s: SendState<T>)
    requires
        start.wf(),
        start.has_room(),
        alone(start, value, m, s),
        s.phase is Store,
    ensures
        goes_on(start, value, m, s),
{
    lemma_send_next_wf(m, s);
}

/// As `lemma_alone`, for the send whose message is written.
proof fn lemma_alone_finish<T>(start: QueueState<T>, value: T, m: QueueState<T>, s: SendState<T>)
    requires
        start.wf(),
        start.has_room(),
        alone(start, value, m, s),
        s.phase is Wake || s.phase is Settle,
    ensures
        goes_on(start, value, m, s),
{
    lemma_send_next_wf(m, s);
}

/// A send that runs alone can always go on, and each access brings it nearer to its end.
pub proof fn lemma_alone<T>(
    start: QueueState<T>,
    value: T,
    m: QueueState<T>,
    s: SendState<T>,
)
    requires
        start.wf(),
        start.has_room(),
        alone(start, value, m, s),
        !s.over(),
    ensures
        s.ready(m),
        alone(start, value, send_next(m, s).0, send_next(m, s).1),
        rank(send_next(m, s).1.phase) < rank(s.phase),
        send_next(m, s).2 == Signal::Done <==> send_next(m, s).1.over(),
{
    match s.phase {
        SendPhase::Claim => {
            lemma_alone_claim(start, value, m, s);
        },
        SendPhase::LoadLink { .. } | SendPhase::Link { .. } => {
            lemma_alone_link(start, value, m, s);
        },
        SendPhase::LoadTail { .. } => {
            lemma_alone_look(start, value, m, s);
        },
        SendPhase::Swing { .. } => {
            lemma_alone_swing(start, value, m, s);
        },
        SendPhase::Store { .. } => {
            lemma_alone_store(start, value, m, s);
        },
        _ => {
            lemma_alone_finish(start, value, m, s);
        },
    }
}

/// A whole send keeps the memory well formed, and queues its message behind the others.
pub proof fn lemma_with_sent<T>(m: QueueState<T>, value: T)
    requires
        m.wf(),
        m.tail is Some,
        m.has_room(),
    ensures
        m.sent(value, m.with_sent(value)),
{
    let after = m.with_sent(value);
    assert(m.issued < m.with_claim().slots.len());
    assert(after.queued() =~= m.queued().push(Some(value)));
}

/// How many accesses a receive has left, at most.
pub open spec fn recv_rank(phase: RecvPhase) -> nat {
    match phase {
        RecvPhase::Check => 5,
        RecvPhase::Head => 4,
        RecvPhase::Next { .. } => 3,
        RecvPhase::Advance { .. } => 2,
        RecvPhase::Slot { .. } => 1,
        RecvPhase::Done => 0,
    }
}

impl<T> QueueState<T> {
    /// The message that the receiver gets next, if it has been written.
    pub open spec fn front(self) -> Option<T> {
        if self.queued().len() > 0 {
            self.queued()[0]
        } else {
            None
        }
    }

    /// Whether the memory has changed into `after` as it does when `value` is sent: the message
    /// is queued behind the others, the receiver is notified, and the senders that came to a used
    /// up block are counted on it.
    pub open spec fn sent(self, value: T, after: QueueState<T>) -> bool {
        &&& after == self.with_sent(value)
        &&& after.wf()
        &&& after.queued() == self.queued().push(Some(value))
        &&& after.issued == self.issued + 1
        &&& after.tail is Some
        &&& after.can_claim()
        &&& after.closed == self.closed
        &&& after.parker == crate::parker::unparked(self.parker)
    }

    /// The memory after the receiver has looked where to read: it leaves a block that it has read
    /// to its end, and counts itself as done with it, if there is a block behind it.
    pub open spec fn with_head_moved(self) -> QueueState<T> {
        if 0 < self.head.0 < self.blocks && self.head.1 == 256 {
            QueueState {
                head: (self.head.0 + 1, 0int),
                pending: self.pending.update(
                    self.head.0 - 1,
                    self.pending[self.head.0 - 1] + 1,
                ),
                ..self
            }
        } else {
            self
        }
    }

    /// The memory after the receiver has looked for a message, and has taken the one at the front
    /// if there was one.
    pub open spec fn with_read(self) -> QueueState<T> {
        let m = self.with_head_moved();
        if self.front() is Some {
            QueueState {
                head: (m.head.0, m.head.1 + 1),
                slots: m.slots.update(self.received(), SlotState::Taken),
                ..m
            }
        } else {
            m
        }
    }

    /// What a whole receive returns, and the memory after it. `Err` says that there is no message
    /// and that all senders have hung up.
    pub open spec fn recv_outcome(self) -> (Result<Option<T>, ()>, QueueState<T>) {
        (
            match self.front() {
                Some(value) => Ok(Some(value)),
                None => if self.closed {
                    Err(())
                } else {
                    Ok(None)
                },
            },
            self.with_read(),
        )
    }

    /// Whether the memory has changed into `after` as it does when the receiver looks for a
    /// message: the one at the front is gone, if there was one.
    pub open spec fn read(self, after: QueueState<T>) -> bool {
        &&& after == self.with_read()
        &&& after.wf()
        &&& after.queued() == (if self.front() is Some {
            self.queued().skip(1)
        } else {
            self.queued()
        })
    }

    /// The memory after one side has hung up: the last sender, which notifies the receiver, or the
    /// receiver.
    pub open spec fn with_hang_up(self, is_sender: bool) -> QueueState<T> {
        if is_sender {
            QueueState {
                closed: true,
                parker: crate::parker::unparked(self.parker),
                ..self
            }
        } else {
            QueueState { tail: None, ..self }
        }
    }
}

/// How far a receive has come that began when the memory was `start` and has run alone since
/// then.
pub open spec fn recv_alone<T>(start: QueueState<T>, m: QueueState<T>, r: RecvState<T>) -> bool {
    &&& m.wf()
    &&& r.ok(m)
    &&& !(r.phase is Check) ==> r.closed == start.closed
    &&& match r.phase {
        RecvPhase::Slot { .. } => m == start.with_head_moved(),
        RecvPhase::Done => m == start.with_read() && r.value == start.front(),
        _ => m == start,
    }
}

/// A receive that runs alone comes to its end, and finds the message that is first in line.
pub proof fn lemma_recv_alone<T>(start: QueueState<T>, m: QueueState<T>, r: RecvState<T>)
    requires
        start.wf(),
        recv_alone(start, m, r),
        !(r.phase is Done),
    ensures
        recv_alone(start, recv_next(m, r).0, recv_next(m, r).1),
        recv_rank(recv_next(m, r).1.phase) < recv_rank(r.phase),
{
    lemma_recv_next_wf(m, r);
    if let RecvPhase::Slot { block, index } = r.phase {
        let t = QueueState::<T>::ticket(block, index);
        assert(t == start.received());
        assert(start.received() < start.issued ==> start.queued()[0] == start.front());
        assert(start.received() >= start.issued ==> start.slots[t] is Vacant);
    }
}

/// A whole receive keeps the memory well formed, and takes the message at the front.
pub proof fn lemma_with_read<T>(m: QueueState<T>)
    requires
        m.wf(),
    ensures
        m.read(m.with_read()),
{
    let after = m.with_read();
    if m.front() is Some {
        assert(m.queued()[0] is Some);
        assert(after.queued() =~= m.queued().skip(1));
    } else {
        assert(after.queued() =~= m.queued());
    }
}

impl<T> QueueState<T> {
    /// The messages in the slots from `t` on, up to the first slot without one, or to `end`.
    pub open spec fn run_from(self, t: int, end: int) -> Seq<T>
        decreases end - t,
    {
        if t < end {
            match self.slots[t] {
                SlotState::Full(value) => seq![value] + self.run_from(t + 1, end),
                _ => Seq::empty(),
            }
        } else {
            Seq::empty()
        }
    }

    /// The messages that are left from slot `i` of block `n` on: in each block, up to the first
    /// slot without one.
    pub open spec fn left_from(self, n: int, i: int) -> Seq<T>
        decreases self.blocks - n + 1,
    {
        if 1 <= n <= self.blocks {
            self.run_from(256 * (n - 1) + i, 256 * n) + self.left_from(n + 1, 0)
        } else {
            Seq::empty()
        }
    }

    /// The messages that are left when the queue goes.
    pub open spec fn left(self) -> Seq<T> {
        self.left_from(self.head.0, self.head.1)
    }

    /// Every claimed slot has been written: no send is under way.
    pub open spec fn written(self) -> bool {
        forall|j: int| 0 <= j < self.queued().len() ==> #[trigger] self.queued()[j] is Some
    }

    /// The messages in the slots from `from` to `to`.
    pub open spec fn values(self, from: int, to: int) -> Seq<T> {
        Seq::new((to - from) as nat, |j: int| self.slots[from + j]->Full_0)
    }
}

proof fn lemma_run_from<T>(m: QueueState<T>, t: int, end: int)
    requires
        m.wf(),
        m.written(),
        m.received() <= t <= end <= 256 * m.blocks,
    ensures
        m.run_from(t, end) == (if end <= m.issued {
            m.values(t, end)
        } else if t <= m.issued {
            m.values(t, m.issued)
        } else {
            Seq::empty()
        }),
    decreases end - t,
{
    if t < end {
        if t < m.issued {
            let j = t - m.received();
            assert(m.queued()[j] is Some);
            assert(m.slots[t] is Full);
            lemma_run_from(m, t + 1, end);
            let stop = if end <= m.issued {
                end
            } else {
                m.issued
            };
            assert(m.values(t, stop) =~= seq![m.slots[t]->Full_0] + m.values(t + 1, stop));
        } else {
            assert(m.slots[t] is Vacant);
            assert(t == m.issued ==> m.values(t, m.issued) =~= Seq::empty());
        }
    } else {
        assert(m.values(t, end) =~= Seq::empty());
    }
}

proof fn lemma_left_from<T>(m: QueueState<T>, n: int, i: int)
    requires
        m.wf(),
        m.written(),
        1 <= n <= m.blocks + 1,
        0 <= i <= 256,
        n == m.blocks + 1 ==> i == 0,
        m.received() <= 256 * (n - 1) + i,
    ensures
        m.left_from(n, i) == (if 256 * (n - 1) + i <= m.issued {
            m.values(256 * (n - 1) + i, m.issued)
        } else {
            Seq::empty()
        }),
    decreases m.blocks - n + 1,
{
    let t = 256 * (n - 1) + i;
    if n <= m.blocks {
        lemma_run_from(m, t, 256 * n);
        lemma_left_from(m, n + 1, 0);
        if t <= m.issued {
            if 256 * n <= m.issued {
                assert(m.values(t, m.issued) =~= m.values(t, 256 * n) + m.values(
                    256 * n,
                    m.issued,
                ));
            } else {
                assert(m.left_from(n, i) =~= m.values(t, m.issued));
            }
        }
    } else {
        assert(t <= m.issued ==> m.values(t, m.issued) =~= Seq::empty());
    }
}

/// When no send is under way, the messages that are left when the queue goes are those that are
/// queued, in the same order.
pub proof fn law_left<T>(m: QueueState<T>)
    requires
        m.wf(),
        m.written(),
    ensures
        m.left().len() == m.queued().len(),
        forall|j: int|
            0 <= j < m.left().len() ==> m.queued()[j] == Some(#[trigger] m.left()[j]),
{
    if m.blocks > 0 {
        lemma_left_from(m, m.head.0, m.head.1);
        assert forall|j: int| 0 <= j < m.left().len() implies m.queued()[j] == Some(
            #[trigger] m.left()[j],
        ) by {
            assert(m.queued()[j] is Some);
        }
    }
}

/// How a send goes on after an access: it is over exactly when its thread is told so; the thread
/// rests exactly when the send starts again because another send was faster, and stays away for a
/// while exactly when it failed to move the tail.
pub proof fn law_signals<T>(m: QueueState<T>, s: SendState<T>)
    requires
        s.ready(m),
        !s.over(),
    ensures
        ({
            let (after, then, signal) = send_next(m, s);
            &&& signal == Signal::Done <==> then.phase is Sent || then.phase is Refused
            &&& signal == Signal::Spin <==> then.phase is Claim
            &&& signal == Signal::Yield <==> s.phase is Swing && then.phase is LoadTail
        }),
{
}

/// A send that only looks, or that loses a race, leaves the memory as it is, but for the one that
/// it counts on a block which another send has left. It keeps its message until it writes it, and
/// a refused send gives back the message that it began with.
pub proof fn law_lost_races<T>(m: QueueState<T>, s: SendState<T>)
    requires
        m.wf(),
        s.ready(m),
    ensures
        ({
            let (after, then, signal) = send_next(m, s);
            &&& s.phase is LoadLink || s.phase is LoadTail ==> after == m
            &&& s.phase is Link && after.blocks == m.blocks ==> after == m
            &&& s.phase is Swing && then.phase is LoadTail ==> after == m
            &&& then.phase is Refused ==> after == m && then.value == s.value
            &&& s.phase matches SendPhase::Discard { block } ==> {
                &&& forall|b: int|
                    0 <= b < m.pending.len() ==> #[trigger] after.pending[b] == m.pending[b] + (
                    if b == block as int / 4096 - 1 {
                        1int
                    } else {
                        0
                    })
                &&& after == QueueState { pending: after.pending, ..m }
            }
            &&& !(s.phase is Store) ==> then.value == s.value
            &&& s.phase is Store ==> then.value is None
        }),
{
}

/// The messages that are left in a row of slots are those of its longest beginning without a gap.
pub proof fn law_run<T>(m: QueueState<T>, t: int, end: int)
    requires
        t <= end,
    ensures
        ({
            let run = m.run_from(t, end);
            &&& run.len() <= end - t
            &&& forall|j: int|
                0 <= j < run.len() ==> m.slots[t + j] == SlotState::Full(#[trigger] run[j])
            &&& run.len() < end - t ==> !(m.slots[t + run.len()] is Full)
        }),
    decreases end - t,
{
    if t < end && m.slots[t] is Full {
        law_run(m, t + 1, end);
        let rest = m.run_from(t + 1, end);
        let run = m.run_from(t, end);
        assert forall|j: int| 0 <= j < run.len() implies m.slots[t + j] == SlotState::Full(
            #[trigger] run[j],
        ) by {
            if j > 0 {
                assert(run[j] == rest[j - 1]);
                assert(m.slots[t + 1 + (j - 1)] == SlotState::Full(rest[j - 1]));
            }
        }
    }
}

/// The messages that are left when the queue goes are those of each block, from the head on, in
/// the order of the blocks: a gap in one block does not hide what the next block holds.
pub proof fn law_left_in_blocks<T>(m: QueueState<T>, n: int, i: int)
    ensures
        m.left() == m.left_from(m.head.0, m.head.1),
        1 <= n <= m.blocks ==> m.left_from(n, i) == m.run_from(256 * (n - 1) + i, 256 * n)
            + m.left_from(n + 1, 0),
        n == 0 || n > m.blocks ==> m.left_from(n, i) == Seq::<T>::empty(),
{
}

/// A send takes one index from the tail. One below 256 of a block that is there is its slot; any
/// other sends it to the link behind that block.
pub proof fn law_claim_access<T>(m: QueueState<T>, s: SendState<T>)
    requires
        m.wf(),
        s.ready(m),
    ensures
        ({
            let (after, then, signal) = send_next(m, s);
            &&& s.phase is Claim ==> match m.tail {
                None => then.phase is Refused && after == m,
                Some((n, i)) => {
                    &&& after.tail == Some((n, i + 1))
                    &&& n > 0 && i < 256 ==> {
                        &&& then.phase matches SendPhase::Store { block, index, pending }
                        &&& block == 4096 * n && index == i && pending is None
                        &&& after == QueueState {
                            tail: after.tail,
                            issued: m.issued + 1,
                            ..m
                        }
                    }
                    &&& n == 0 || i >= 256 ==> {
                        &&& then.phase matches SendPhase::LoadLink { block }
                        &&& block == 4096 * n
                        &&& after == QueueState { tail: after.tail, ..m }
                    }
                },
            }
        }),
{
}

/// At the link behind a block a send finds the address of the next block, and links a block only
/// where there is none.
pub proof fn law_link_access<T>(m: QueueState<T>, s: SendState<T>)
    requires
        m.wf(),
        s.ready(m),
    ensures
        ({
            let (after, then, signal) = send_next(m, s);
            &&& s.phase matches SendPhase::LoadLink { block } ==> {
                let n = block as int / 4096;
                if n < m.blocks {
                    &&& then.phase matches SendPhase::LoadTail { block: same, next }
                    &&& same == block
                    &&& next == (if n > 0 {
                        4096 * (n + 1)
                    } else {
                        4096 * m.head.0 + 2 * m.head.1
                    })
                } else {
                    then.phase == SendPhase::Link { block }
                }
            }
            &&& s.phase matches SendPhase::Link { block } ==> {
                let n = block as int / 4096;
                &&& then.phase matches SendPhase::LoadTail { block: same, next }
                &&& same == block
                &&& n == m.blocks ==> after.blocks == m.blocks + 1 && next == 4096 * (m.blocks + 1)
                &&& n < m.blocks ==> after.blocks == m.blocks
            }
        }),
{
}

/// A send that has come to a used up block looks whether the tail is still there. If it is, the send
/// tries to move it from what it saw; if it is not, the send counts itself on the block that it
/// lost, if there was one, and starts again.
pub proof fn law_look_access<T>(m: QueueState<T>, s: SendState<T>)
    requires
        m.wf(),
        s.ready(m),
    ensures
        ({
            let (after, then, signal) = send_next(m, s);
            &&& s.phase matches SendPhase::LoadTail { block, next } ==> match m.tail {
                None => then.phase is Refused,
                Some((n, i)) => if 4096 * n == block {
                    &&& then.phase matches SendPhase::Swing { block: same, next: behind, tail }
                    &&& same == block && behind == next && tail == 4096 * n + 2 * i
                } else if block > 0 {
                    then.phase == SendPhase::Discard { block }
                } else {
                    then.phase is Claim
                },
            }
        }),
{
    if let Some((n, i)) = m.tail {
        assert(4096 * (n + 1) <= usize::MAX);
        assert(address(n) == 4096 * n);
        assert((4096 * n + 2 * i) as usize == 4096 * n + 2 * i);
    }
}

/// A send moves the tail to the first slot of the next block, which is then its own, only where the
/// tail is still what it saw. It then owes the block that it leaves a count of all who came behind
/// its 256 slots, or 1 to the first block of all.
pub proof fn law_swing_access<T>(m: QueueState<T>, s: SendState<T>)
    requires
        m.wf(),
        s.ready(m),
    ensures
        ({
            let (after, then, signal) = send_next(m, s);
            &&& s.phase matches SendPhase::Swing { block, next, tail } ==> {
                let seen = m.tail matches Some((n, i)) && tail == 4096 * n + 2 * i;
                &&& then.phase is Store <==> seen
                &&& seen ==> {
                    &&& then.phase matches SendPhase::Store { block: own, index, pending }
                    &&& own == next && index == 0
                    &&& after.tail == Some((next as int / 4096, 1int))
                    &&& after.issued == m.issued + 1
                    &&& block == 0 ==> pending == Some((next, 1usize))
                    &&& block != 0 ==> (pending matches Some((left, count)) && left == block
                        && 2 * (count + 256) == tail as int % 4096)
                }
            }
        }),
{
    if let SendPhase::Swing { block, next, tail } = s.phase {
        let index = crate::block::index_of(tail as int);
        assert(tail == 4096 * number(tail) + 2 * index);
        if let Some((n, i)) = m.tail {
            assert(tail == 4096 * n + 2 * i <==> (n, i) == (number(tail), index));
        }
    }
}

/// What a send that has a slot does: it writes its message into that slot and no other, notifies
/// the receiver, and adds to the count of one block what it owes there. Each of these changes
/// nothing else.
pub proof fn law_send_finish<T>(m: QueueState<T>, s: SendState<T>)
    requires
        m.wf(),
        s.ready(m),
    ensures
        ({
            let (after, then, signal) = send_next(m, s);
            &&& s.phase matches SendPhase::Store { block, index, pending } ==> {
                let t = 256 * (block as int / 4096 - 1) + index;
                &&& after.slots[t] == SlotState::Full(s.value->0)
                &&& forall|u: int|
                    0 <= u < m.slots.len() && u != t ==> #[trigger] after.slots[u] == m.slots[u]
                &&& after == QueueState { slots: after.slots, ..m }
                &&& then.phase == SendPhase::Wake { pending }
            }
            &&& s.phase matches SendPhase::Wake { pending } ==> {
                &&& after.parker.state == (if m.parker.state == crate::parker::ParkState::Closed {
                    crate::parker::ParkState::Closed
                } else {
                    crate::parker::ParkState::Notified
                })
                &&& after.parker.wake == (m.parker.wake || m.parker.state
                    == crate::parker::ParkState::Parked)
                &&& after == QueueState { parker: after.parker, ..m }
                &&& pending is None ==> then.phase is Sent
                &&& pending matches Some((block, count)) ==> then.phase == SendPhase::Settle {
                    block,
                    count,
                }
            }
            &&& s.phase matches SendPhase::Settle { block, count } ==> {
                &&& forall|b: int|
                    0 <= b < m.pending.len() ==> #[trigger] after.pending[b] == m.pending[b] + (
                    if b == block as int / 4096 - 1 {
                        count as int
                    } else {
                        0
                    })
                &&& after == QueueState { pending: after.pending, ..m }
                &&& then.phase is Sent
            }
        }),
{
}

/// What a receive does, from the words themselves: it looks first whether the senders have hung
/// up, then where the head is; at the end of a block it goes on to the next one, if there is one;
/// and it takes what the slot at the head holds, if that has been written.
pub proof fn law_recv_access<T>(m: QueueState<T>, r: RecvState<T>)
    requires
        m.wf(),
        r.ok(m),
    ensures
        ({
            let (after, then) = recv_next(m, r);
            &&& r.phase is Check ==> after == m && then.closed == m.closed && then.phase is Head
            &&& !(r.phase is Check) ==> then.closed == r.closed
            &&& r.phase is Head ==> {
                &&& after == m
                &&& m.head.0 == 0 ==> then.phase is Done
                &&& m.head.0 > 0 && m.head.1 == 256 ==> (then.phase matches RecvPhase::Next { block }
                    && block == 4096 * m.head.0)
                &&& m.head.0 > 0 && m.head.1 < 256 ==> (then.phase matches RecvPhase::Slot {
                    block,
                    index,
                } && block == 4096 * m.head.0 && index == m.head.1)
            }
            &&& r.phase is Next ==> {
                &&& after == m
                &&& then.phase is Done <==> m.head.0 == m.blocks
            }
            &&& r.phase is Advance ==> {
                &&& after.head == (m.head.0 + 1, 0int)
                &&& forall|b: int|
                    0 <= b < m.pending.len() ==> #[trigger] after.pending[b] == m.pending[b] + (
                    if b == m.head.0 - 1 {
                        1int
                    } else {
                        0
                    })
                &&& after == QueueState { head: after.head, pending: after.pending, ..m }
            }
            &&& r.phase is Slot ==> {
                let t = m.received();
                &&& then.phase is Done
                &&& then.value is Some <==> m.slots[t] is Full
                &&& then.value matches Some(value) ==> {
                    &&& m.slots[t] == SlotState::Full(value)
                    &&& after.received() == t + 1
                    &&& after.slots[t] is Taken
                    &&& forall|u: int|
                        0 <= u < m.slots.len() && u != t ==> #[trigger] after.slots[u] == m.slots[u]
                    &&& after == QueueState { head: after.head, slots: after.slots, ..m }
                }
                &&& then.value is None ==> after == m
            }
            &&& !(r.phase is Slot) ==> then.value == r.value
        }),
{
    lemma_recv_next_wf(m, r);
}

} // verus!
