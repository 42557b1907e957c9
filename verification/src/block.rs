//! Blocks of message slots, and the tagged words that point into them.

use crate::padded::{load, store};
use cache_padded::CachePadded;
use vstd::prelude::*;

verus! {

/// Blocks lie at addresses that are multiples of this.
pub const BLOCK_ALIGN: usize = 4096;

/// How many messages one block holds.
pub const BLOCK_SIZE: usize = 256;

/// How far the slot index is shifted inside a tagged word.
pub const INDEX_SHIFT: u32 = 1;

/// The bit of a tagged word that says that the receiver has hung up.
pub const DISCONNECT_BIT: usize = 1;

/// The largest slot index that a tagged word has room for.
pub const MAX_INDEX: usize = 2047;

/// What a tagged word holds: the address of a block, a slot index and the disconnect bit.
pub open spec fn tagged(block: int, index: int, disconnected: bool) -> int {
    block + 2 * index + (if disconnected { 1int } else { 0int })
}

/// The address of the block that a tagged word points to.
pub open spec fn block_of(word: int) -> int {
    word - word % 4096
}

/// The slot index in a tagged word.
pub open spec fn index_of(word: int) -> int {
    (word % 4096) / 2
}

/// Whether the disconnect bit of a tagged word is set.
pub open spec fn disconnected_of(word: int) -> bool {
    word % 2 == 1
}

/// What a slot holds.
pub enum SlotState<T> {
    /// No message has been written yet.
    Vacant,
    /// A message is there.
    Full(T),
    /// The message has been received.
    Taken,
}

/// One place for a message. `ready` says that the message has been written. It stays set when
/// the message has been taken out.
pub struct Slot<T> {
    pub value: Option<T>,
    pub ready: bool,
}

impl<T> View for Slot<T> {
    type V = SlotState<T>;

    open spec fn view(&self) -> SlotState<T> {
        match (self.ready, self.value) {
            (false, _) => SlotState::Vacant,
            (true, Some(value)) => SlotState::Full(value),
            (true, None) => SlotState::Taken,
        }
    }
}

impl<T> Slot<T> {
    /// A message is there only once the slot is ready.
    pub open spec fn wf(self) -> bool {
        !self.ready ==> self.value is None
    }

    /// A slot without a message.
    pub fn new() -> (slot: Slot<T>)
        ensures
            slot.wf(),
            slot@ == SlotState::<T>::Vacant,
    {
        Slot { value: None, ready: false }
    }

    /// Puts a message into the slot and marks it ready.
    pub fn write(&mut self, value: T)
        ensures
            final(self).wf(),
            final(self)@ == SlotState::Full(value),
    {
        self.value = Some(value);
        self.ready = true;
    }

    /// Takes the message out, if the slot is ready. A message is taken out once only.
    pub fn read(&mut self) -> (value: Option<T>)
        requires
            old(self).wf(),
            !(old(self)@ is Taken),
        ensures
            final(self).wf(),
            value == (match old(self)@ {
                SlotState::Full(value) => Some(value),
                _ => None,
            }),
            final(self)@ == (match old(self)@ {
                SlotState::Full(_) => SlotState::<T>::Taken,
                _ => SlotState::Vacant,
            }),
    {
        if self.ready {
            self.value.take()
        } else {
            None
        }
    }
}

/// A block of slots, the address of the block behind it (0 where there is none), and the count
/// of the threads that are done with it.
pub struct Block<T> {
    pub slots: Vec<Slot<T>>,
    pub next: usize,
    pub pending: isize,
}

impl<T> Block<T> {
    /// Every slot is there, and is itself well formed.
    pub open spec fn wf(self) -> bool {
        &&& self.slots@.len() == BLOCK_SIZE
        &&& forall|i: int| 0 <= i < BLOCK_SIZE ==> (#[trigger] self.slots@[i]).wf()
    }

    /// A block without messages that nothing is linked to.
    pub fn new() -> (block: Block<T>)
        ensures
            block.wf(),
            forall|i: int| 0 <= i < BLOCK_SIZE ==> (#[trigger] block.slots@[i])@ == SlotState::<
                T,
            >::Vacant,
            block.next == 0,
            block.pending == 0,
    {
        let mut slots: Vec<Slot<T>> = Vec::new();
        while slots.len() < BLOCK_SIZE
            invariant
                slots@.len() <= BLOCK_SIZE,
                forall|i: int|
                    0 <= i < slots@.len() ==> (#[trigger] slots@[i]).wf() && slots@[i]@
                        == SlotState::<T>::Vacant,
            decreases BLOCK_SIZE - slots@.len(),
        {
            slots.push(Slot::new());
        }
        Block { slots, next: 0, pending: 0 }
    }

    /// Adds to a word, wrapping around, and returns what the word was.
    pub fn fetch_add(word: &mut CachePadded<usize>, amount: usize) -> (previous: usize)
        ensures
            previous == crate::padded::padded_word(*old(word)),
            crate::padded::padded_word(*final(word)) == previous.wrapping_add(amount),
            previous + amount <= usize::MAX ==> crate::padded::padded_word(*final(word))
                == previous + amount,
            previous + amount > usize::MAX ==> crate::padded::padded_word(*final(word)) == previous
                + amount - usize::MAX - 1,
    {
        let previous: usize = load(word);
        store(word, previous.wrapping_add(amount));
        previous
    }

    /// Counts `count` threads as done with the block. Says whether the count has come back to
    /// zero, which is when nobody is left to touch the block.
    pub fn drop(&mut self, count: isize) -> (last: bool)
        ensures
            final(self).slots == old(self).slots,
            final(self).next == old(self).next,
            final(self).pending == old(self).pending.wrapping_add(count),
            last == (final(self).pending == 0),
            isize::MIN <= old(self).pending + count <= isize::MAX ==> {
                &&& final(self).pending == old(self).pending + count
                &&& last <==> old(self).pending == -count
            },
    {
        let pending: isize = self.pending.wrapping_add(count);
        self.pending = pending;
        pending == 0
    }

    /// Packs a block address, a slot index and the disconnect bit into one word.
    pub fn encode(block: usize, index: usize, disconnected: bool) -> (word: usize)
        requires
            block as int % 4096 == 0,
            index <= MAX_INDEX,
        ensures
            word == tagged(block as int, index as int, disconnected),
    {
        let flag: usize = if disconnected { DISCONNECT_BIT } else { 0 };
        assert(block & 4095 == 0) by (bit_vector)
            requires block % 4096 == 0;
        assert(block | (index << 1u32) | flag == block + 2 * index + flag) by (bit_vector)
            requires
                block & 4095 == 0,
                index <= 2047,
                flag <= 1,
        ;
        block | (index << INDEX_SHIFT) | flag
    }

    /// Unpacks a word into the block address, the slot index and the disconnect bit.
    pub fn decode(ptr: usize) -> (parts: (usize, usize, bool))
        ensures
            parts.0 == block_of(ptr as int),
            parts.1 == index_of(ptr as int),
            parts.2 == disconnected_of(ptr as int),
    {
        assert(ptr & !4095usize == ptr - ptr % 4096) by (bit_vector);
        assert((ptr & 4095) >> 1u32 == (ptr % 4096) / 2) by (bit_vector);
        assert(ptr & 1 == ptr % 2) by (bit_vector);
        let block: usize = ptr & !(BLOCK_ALIGN - 1);
        let index: usize = (ptr & (BLOCK_ALIGN - 1)) >> INDEX_SHIFT;
        (block, index, ptr & DISCONNECT_BIT != 0)
    }
}

/// A word unpacks to what was packed into it.
pub proof fn law_decode_encode(block: int, index: int, disconnected: bool)
    requires
        block % 4096 == 0,
        0 <= index <= MAX_INDEX,
    ensures
        block_of(tagged(block, index, disconnected)) == block,
        index_of(tagged(block, index, disconnected)) == index,
        disconnected_of(tagged(block, index, disconnected)) == disconnected,
{
}

/// A word is the address of its block where nothing else is packed into it. Two more is the next
/// index, and one more the disconnect bit, whatever the rest: so one addition to a word takes an
/// index, or hangs up.
pub proof fn law_word(block: int, index: int, disconnected: bool)
    ensures
        tagged(block, 0, false) == block,
        tagged(block, index + 1, disconnected) == tagged(block, index, disconnected) + 2,
        tagged(block, index, true) == tagged(block, index, false) + DISCONNECT_BIT,
{
}

/// The parts of a word, from the word: the block is the multiple of the alignment up to which the
/// word reaches, the index counts by two from there, and an odd word has the disconnect bit.
pub proof fn law_parts(word: int)
    ensures
        block_of(word) % 4096 == 0,
        block_of(word) <= word < block_of(word) + 4096,
        block_of(word) + 2 * index_of(word) <= word < block_of(word) + 2 * index_of(word) + 2,
        disconnected_of(word) <==> word == block_of(word) + 2 * index_of(word) + 1,
{
}

/// Packing again what a word unpacks to gives the word.
pub proof fn law_encode_decode(word: int)
    ensures
        tagged(block_of(word), index_of(word), disconnected_of(word)) == word,
        block_of(word) % 4096 == 0,
        0 <= index_of(word) <= MAX_INDEX,
{
}

} // verus!
