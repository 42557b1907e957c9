//! The counts of the blocks, under any order of accesses: why a tagged word has room for the
//! indices that senders take, and why no block is given up while somebody may still touch it.

use crate::protocol::{Debt, Step, World};
use crate::state::SendPhase;
use vstd::prelude::*;

verus! {

/// The block that a send came to when it was used up (0 where there was none), as long as the
/// send is not done with it; -1 otherwise.
pub open spec fn came_to(phase: SendPhase) -> int {
    match phase {
        SendPhase::LoadLink { block } => crate::state::number(block),
        SendPhase::Link { block } => crate::state::number(block),
        SendPhase::LoadTail { block, .. } => crate::state::number(block),
        SendPhase::Swing { block, .. } => crate::state::number(block),
        SendPhase::Discard { block } => crate::state::number(block),
        _ => -1,
    }
}

/// The count that a send has still to add to a block, and the block.
pub open spec fn owes(phase: SendPhase) -> Option<(usize, usize)> {
    match phase {
        SendPhase::Store { pending, .. } => pending,
        SendPhase::Wake { pending } => pending,
        SendPhase::Settle { block, count } => Some((block, count)),
        _ => None,
    }
}

/// 1 where something holds, 0 where it does not.
pub open spec fn one(holds: bool) -> int {
    if holds {
        1
    } else {
        0
    }
}

impl<T> World<T> {
    /// The sends that came to block `n` and are not done with it.
    pub open spec fn waiting(self, n: int) -> Set<int> {
        self.sends.dom().filter(|id: int| came_to(self.sends[id].phase) == n)
    }

    /// What holds of the sends that came to block `n`.
    pub open spec fn block_inv(self, n: int) -> bool {
        &&& 0 <= self.losers[n]
        &&& 0 <= self.over[n] <= (if n == 0 {
            2047int
        } else {
            1791
        })
        &&& self.waiting(n).len() + self.losers[n] <= self.over[n]
        &&& n > self.memory.used() ==> self.over[n] == 0
    }

    /// As long as the tail is at a block, every send that came to it is still there, and the
    /// index in the tail tells how many they are.
    pub open spec fn tail_inv(self) -> bool {
        self.memory.tail matches Some((n, i)) ==> {
            &&& self.over[n] == (if n == 0 {
                i
            } else if i < 256 {
                0
            } else {
                i - 256
            })
            &&& self.losers[n] == 0
            &&& self.waiting(n).len() == self.over[n]
        }
    }

    /// A debt is for a block that the tail has left, or for the first block.
    pub open spec fn debt_inv(self, debt: Debt) -> bool {
        if debt.first {
            debt.block == 1 && self.memory.used() >= 1
        } else {
            1 <= debt.block < self.memory.used()
        }
    }

    /// The count that a debt stands for.
    pub open spec fn amount(self, debt: Debt) -> int {
        if debt.first {
            1
        } else {
            self.over[debt.block]
        }
    }

    /// What holds of a send that came to a block and lost, or that owes a count.
    pub open spec fn owing_inv(self, id: int) -> bool {
        let s = self.sends[id];
        &&& s.phase matches SendPhase::Discard { block } ==> {
            &&& block as int % 4096 == 0
            &&& 1 <= crate::state::number(block) <= self.memory.used()
            &&& self.memory.tail matches Some((n, _)) ==> n != crate::state::number(block)
        }
        &&& self.debts.contains_key(id) <==> owes(s.phase) is Some
        &&& owes(s.phase) matches Some((block, count)) ==> {
            let debt = self.debts[id];
            &&& block as int % 4096 == 0
            &&& crate::state::number(block) == debt.block
            &&& count == self.amount(debt)
            &&& count >= 1
            &&& self.debt_inv(debt)
            &&& !self.paid.contains(debt)
        }
    }

    /// What has been counted on block `n`.
    pub open spec fn tally(self, n: int) -> int {
        self.losers[n] + (if self.paid.contains(Debt { first: false, block: n }) {
            self.over[n]
        } else {
            0
        }) + one(self.paid.contains(Debt { first: true, block: n })) + one(self.memory.head.0 > n)
    }

    /// What holds of the counts at all times.
    pub open spec fn count_inv(self) -> bool {
        &&& self.over.len() == self.memory.blocks + 1
        &&& self.losers.len() == self.memory.blocks + 1
        &&& forall|n: int| 0 <= n <= self.memory.blocks ==> #[trigger] self.block_inv(n)
        &&& self.tail_inv()
        &&& forall|id: int| #[trigger] self.sends.contains_key(id) ==> self.owing_inv(id)
        &&& forall|id: int| #[trigger] self.debts.contains_key(id) ==> self.sends.contains_key(id)
        &&& forall|a: int, b: int|
            #![trigger self.debts[a], self.debts[b]]
            self.debts.contains_key(a) && self.debts.contains_key(b) && a != b ==> self.debts[a]
                != self.debts[b]
        &&& forall|debt: Debt| #[trigger] self.paid.contains(debt) ==> self.debt_inv(debt)
        &&& forall|n: int|
            1 <= n <= self.memory.blocks ==> #[trigger] self.memory.pending[n - 1] == self.tally(n)
    }
}

/// How the set of the sends at block `n` changes when one send moves on.
proof fn lemma_waiting<T>(w: World<T>, after: World<T>, id: int, n: int)
    requires
        w.sends.dom().finite(),
        w.sends.contains_key(id),
        after.sends == w.sends.insert(id, after.sends[id]),
    ensures
        after.waiting(n).finite(),
        w.waiting(n).finite(),
        after.waiting(n).len() == w.waiting(n).len() - one(came_to(w.sends[id].phase) == n)
            + one(came_to(after.sends[id].phase) == n),
        came_to(w.sends[id].phase) == n ==> w.waiting(n).len() >= 1,
{
    let before = w.waiting(n);
    w.sends.dom().lemma_len_filter(|id: int| came_to(w.sends[id].phase) == n);
    after.sends.dom().lemma_len_filter(|id: int| came_to(after.sends[id].phase) == n);
    if came_to(after.sends[id].phase) == n {
        assert(after.waiting(n) =~= before.insert(id));
    } else {
        assert(after.waiting(n) =~= before.remove(id));
    }
}

/// The set of the sends at a block is the same where the sends are.
proof fn lemma_waiting_same<T>(w: World<T>, after: World<T>)
    requires
        after.sends == w.sends,
    ensures
        forall|n: int| #[trigger] after.waiting(n) == w.waiting(n),
{
    assert forall|n: int| #[trigger] after.waiting(n) == w.waiting(n) by {
        assert(after.waiting(n) =~= w.waiting(n));
    }
}

/// Whatever a send has still to count can be counted.
pub proof fn lemma_can_count<T>(w: World<T>, id: int)
    requires
        w.core_inv(),
        w.count_inv(),
        w.sends.contains_key(id),
    ensures
        w.sends[id].can_count(w.memory),
{
    let s = w.sends[id];
    assert(w.owing_inv(id));
    assert(w.sends =~= w.sends.insert(id, s));
    lemma_waiting(w, w, id, came_to(s.phase));
    match s.phase {
        SendPhase::Discard { block } => {
            let n = crate::state::number(block);
            assert(w.block_inv(n));
            assert(w.memory.pending[n - 1] == w.tally(n));
        },
        _ => {
            if let Some((block, count)) = owes(s.phase) {
                let n = crate::state::number(block);
                assert(w.block_inv(n));
                assert(w.memory.pending[n - 1] == w.tally(n));
            }
        },
    }
}

/// An access of a send keeps what holds of the sends at the blocks.
proof fn lemma_send_keeps_blocks<T>(w: World<T>, id: int)
    requires
        w.core_inv(),
        w.count_inv(),
        w.enabled(Step::Send { id }),
    ensures
        w.after_send(id).over.len() == w.after_send(id).memory.blocks + 1,
        w.after_send(id).losers.len() == w.after_send(id).memory.blocks + 1,
        forall|n: int|
            0 <= n <= w.after_send(id).memory.blocks ==> #[trigger] w.after_send(id).block_inv(n),
        w.after_send(id).tail_inv(),
{
    let after = w.after_send(id);
    let s = w.sends[id];
    let then = after.sends[id];
    assert(w.send_inv(id));
    assert(w.owing_inv(id));
    lemma_can_count(w, id);
    crate::state::lemma_send_next_wf(w.memory, s);
    crate::protocol::lemma_own_access(w.memory, s);
    assert forall|n: int| 0 <= n <= after.memory.blocks implies #[trigger] after.block_inv(n) by {
        lemma_waiting(w, after, id, n);
        if n <= w.memory.blocks {
            assert(w.block_inv(n));
        } else {
            assert(w.waiting(n) =~= Set::empty()) by {
                assert forall|other: int| !w.waiting(n).contains(other) by {
                    if w.waiting(n).contains(other) {
                        assert(w.send_inv(other));
                        assert(w.owing_inv(other));
                    }
                }
            }
        }
    }
    if let Some((n, i)) = after.memory.tail {
        lemma_waiting(w, after, id, n);
        assert(after.block_inv(n));
        assert(n <= w.memory.blocks ==> w.block_inv(n));
    }
}

/// An access of a send keeps what holds of the debts.
proof fn lemma_send_keeps_debts<T>(w: World<T>, id: int)
    requires
        w.core_inv(),
        w.count_inv(),
        w.enabled(Step::Send { id }),
    ensures
        ({
            let after = w.after_send(id);
            &&& forall|other: int| #[trigger]
                after.sends.contains_key(other) ==> after.owing_inv(other)
            &&& forall|other: int| #[trigger]
                after.debts.contains_key(other) ==> after.sends.contains_key(other)
            &&& forall|a: int, b: int|
                #![trigger after.debts[a], after.debts[b]]
                after.debts.contains_key(a) && after.debts.contains_key(b) && a != b
                    ==> after.debts[a] != after.debts[b]
            &&& forall|debt: Debt| #[trigger] after.paid.contains(debt) ==> after.debt_inv(debt)
        }),
{
    let after = w.after_send(id);
    let s = w.sends[id];
    let then = after.sends[id];
    assert(w.send_inv(id));
    assert(w.owing_inv(id));
    lemma_can_count(w, id);
    crate::state::lemma_send_next_wf(w.memory, s);
    crate::protocol::lemma_own_access(w.memory, s);
    assert forall|other: int| #[trigger] after.sends.contains_key(other) implies after.owing_inv(
        other,
    ) by {
        assert(w.sends.contains_key(other));
        assert(w.owing_inv(other));
        assert(w.send_inv(other));
    }
    assert forall|a: int, b: int|
        #![trigger after.debts[a], after.debts[b]]
        after.debts.contains_key(a) && after.debts.contains_key(b) && a
            != b implies after.debts[a] != after.debts[b] by {
        if a != id && b != id {
            assert(w.debts[a] != w.debts[b]);
        } else {
            assert(w.debts.contains_key(a) ==> w.owing_inv(a));
            assert(w.debts.contains_key(b) ==> w.owing_inv(b));
            if w.debts.contains_key(a) && w.debts.contains_key(b) {
                assert(w.debts[a] != w.debts[b]);
            }
        }
    }
}

/// An access of a send keeps the counts equal to what has been counted.
proof fn lemma_send_keeps_tally<T>(w: World<T>, id: int)
    requires
        w.core_inv(),
        w.count_inv(),
        w.enabled(Step::Send { id }),
    ensures
        forall|n: int|
            1 <= n <= w.after_send(id).memory.blocks ==> #[trigger] w.after_send(
                id,
            ).memory.pending[n - 1] == w.after_send(id).tally(n),
{
    let after = w.after_send(id);
    let s = w.sends[id];
    assert(w.send_inv(id));
    assert(w.owing_inv(id));
    lemma_can_count(w, id);
    crate::state::lemma_send_next_wf(w.memory, s);
    assert forall|n: int| 1 <= n <= after.memory.blocks implies #[trigger] after.memory.pending[n
        - 1] == after.tally(n) by {
        if n <= w.memory.blocks {
            assert(w.memory.pending[n - 1] == w.tally(n));
        }
    }
}

/// An access of a send keeps what holds of the counts.
proof fn lemma_send_keeps_counts<T>(w: World<T>, id: int)
    requires
        w.core_inv(),
        w.count_inv(),
        w.enabled(Step::Send { id }),
    ensures
        w.after_send(id).count_inv(),
{
    lemma_send_keeps_blocks(w, id);
    lemma_send_keeps_debts(w, id);
    lemma_send_keeps_tally(w, id);
}

/// A step keeps what holds of the counts where it leaves the counts and the tail alone, and no
/// send comes to a block or leaves one.
proof fn lemma_quiet_keeps_counts<T>(w: World<T>, after: World<T>)
    requires
        w.memory.wf(),
        w.count_inv(),
        after.over == w.over,
        after.losers == w.losers,
        after.debts == w.debts,
        after.paid == w.paid,
        after.memory.blocks == w.memory.blocks,
        after.memory.pending == w.memory.pending,
        after.memory.issued == w.memory.issued,
        after.memory.head.0 == w.memory.head.0,
        after.memory.tail == w.memory.tail || after.memory.tail is None,
        forall|n: int| 0 <= n ==> #[trigger] after.waiting(n) == w.waiting(n),
        forall|id: int| #[trigger] w.sends.contains_key(id) ==> after.sends.contains_key(id),
        forall|id: int| #[trigger]
            after.sends.contains_key(id) ==> {
                ||| w.sends.contains_key(id) && after.sends[id] == w.sends[id]
                ||| !(after.sends[id].phase is Discard) && owes(after.sends[id].phase) is None
                    && !w.debts.contains_key(id)
            },
    ensures
        after.count_inv(),
{
    assert forall|n: int| 0 <= n <= after.memory.blocks implies #[trigger] after.block_inv(n) by {
        assert(w.block_inv(n));
    }
    assert forall|id: int| #[trigger] after.sends.contains_key(id) implies after.owing_inv(id) by {
        if w.sends.contains_key(id) {
            assert(w.owing_inv(id));
        }
    }
    assert forall|n: int| 1 <= n <= after.memory.blocks implies #[trigger] after.memory.pending[n
        - 1] == after.tally(n) by {
        assert(w.memory.pending[n - 1] == w.tally(n));
    }
}

/// An access of the receiver keeps what holds of the counts.
proof fn lemma_read_keeps_counts<T>(w: World<T>)
    requires
        w.core_inv(),
        w.count_inv(),
        w.enabled(Step::Read),
    ensures
        w.after(Step::Read).count_inv(),
{
    let after = w.after(Step::Read);
    lemma_waiting_same(w, after);
    crate::state::lemma_recv_next_wf(w.memory, w.recv);
    assert forall|n: int| 0 <= n <= after.memory.blocks implies #[trigger] after.block_inv(n) by {
        assert(w.block_inv(n));
    }
    assert forall|id: int| #[trigger] after.sends.contains_key(id) implies after.owing_inv(id) by {
        assert(w.owing_inv(id));
    }
    assert forall|n: int| 1 <= n <= after.memory.blocks implies #[trigger] after.memory.pending[n
        - 1] == after.tally(n) by {
        assert(w.memory.pending[n - 1] == w.tally(n));
    }
}

/// Every other step keeps what holds of the counts.
proof fn lemma_rest_keeps_counts<T>(w: World<T>, step: Step<T>)
    requires
        w.core_inv(),
        w.count_inv(),
        w.enabled(step),
        !(step is Send),
        !(step is Read),
    ensures
        w.after(step).count_inv(),
{
    let after = w.after(step);
    match step {
        Step::Begin { id, value } => {
            assert(!w.debts.contains_key(id));
            assert forall|n: int| 0 <= n implies #[trigger] after.waiting(n) == w.waiting(n) by {
                assert(after.waiting(n) =~= w.waiting(n));
            }
        },
        Step::Miss { id } => {
            assert(w.owing_inv(id));
            assert forall|n: int| 0 <= n implies #[trigger] after.waiting(n) == w.waiting(n) by {
                assert(after.waiting(n) =~= w.waiting(n));
            }
        },
        _ => {
            lemma_waiting_same(w, after);
        },
    }
    lemma_quiet_keeps_counts(w, after);
}

/// Every step keeps what holds of the counts.
pub proof fn lemma_step_keeps_counts<T>(w: World<T>, step: Step<T>)
    requires
        w.core_inv(),
        w.count_inv(),
        w.enabled(step),
    ensures
        w.after(step).count_inv(),
{
    if let Step::Send { id } = step {
        lemma_send_keeps_counts(w, id);
    } else if step is Read {
        lemma_read_keeps_counts(w);
    } else {
        lemma_rest_keeps_counts(w, step);
    }
}

} // verus!
