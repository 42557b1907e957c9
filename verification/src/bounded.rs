//! The decisions of a channel with a bounded buffer, whose senders wait when it is full.
//!
//! Trying to send, the word that waiting senders are linked to, and the waiting itself belong to
//! whoever runs the channel. What comes of each of them decides what is done next.

use vstd::prelude::*;

verus! {

/// The buffer: for each place a stamp, which tells whose turn the place is, and a message.
pub struct Array<T> {
    pub stamps: Vec<u32>,
    pub values: Vec<Option<T>>,
}

impl<T> Array<T> {
    /// How far behind the start of the buffer the stamps lie, in bytes, for values of the given
    /// size and alignment: the size of all values, and the difference between the alignment of a
    /// stamp, 4, and that of a value where the former is larger.
    pub fn stamp_offset(value_size: usize, value_align: usize, capacity: usize) -> (offset:
        Option<usize>)
        ensures
            offset == (if Self::offset(value_size, value_align, capacity) <= usize::MAX {
                Some(Self::offset(value_size, value_align, capacity) as usize)
            } else {
                None
            }),
    {
        let align: usize = 4usize.saturating_sub(value_align);
        match value_size.checked_mul(capacity) {
            Some(size) => size.checked_add(align),
            None => None,
        }
    }

    /// As `stamp_offset`, without a limit.
    pub open spec fn offset(value_size: usize, value_align: usize, capacity: usize) -> int {
        value_size * capacity + (if value_align < 4 {
            4 - value_align
        } else {
            0
        })
    }

    /// The size of the memory for a buffer, without a limit.
    pub open spec fn size(value_size: usize, value_align: usize, capacity: usize) -> int {
        Self::offset(value_size, value_align, capacity) + 4 * capacity
    }

    /// The size and the alignment of the memory for a buffer, unless it is too large.
    pub open spec fn layout_of(value_size: usize, value_align: usize, capacity: usize) -> Option<
        (usize, usize),
    > {
        let align = if value_align < 4 {
            4usize
        } else {
            value_align
        };
        if Self::size(value_size, value_align, capacity) + align - 1 <= isize::MAX {
            Some((Self::size(value_size, value_align, capacity) as usize, align))
        } else {
            None
        }
    }

    /// The stamps of a buffer without messages.
    pub open spec fn first_stamps(capacity: nat) -> Seq<u32> {
        Seq::new(capacity, |i: int| i as u32)
    }

    /// The size and the alignment of the memory for a buffer, unless it is too large.
    pub fn layout(value_size: usize, value_align: usize, capacity: usize) -> (layout: Option<
        (usize, usize),
    >)
        ensures
            ({
                let align = if value_align < 4 {
                    4usize
                } else {
                    value_align
                };
                let size = Self::offset(value_size, value_align, capacity) + 4 * capacity;
                layout == (if size + align - 1 <= isize::MAX {
                    Some((size as usize, align))
                } else {
                    None
                })
            }),
            layout == Self::layout_of(value_size, value_align, capacity),
    {
        let align: usize = if value_align < 4 {
            4
        } else {
            value_align
        };
        proof {
            assert(value_size * capacity >= 0) by (nonlinear_arith)
                requires
                    value_size >= 0,
                    capacity >= 0,
            ;
        }
        let offset: usize = match Self::stamp_offset(value_size, value_align, capacity) {
            Some(offset) => offset,
            None => return None,
        };
        let stamps: usize = match capacity.checked_mul(4) {
            Some(stamps) => stamps,
            None => return None,
        };
        let size: usize = match offset.checked_add(stamps) {
            Some(size) => size,
            None => return None,
        };
        match size.checked_add(align - 1) {
            Some(rounded) => if rounded <= isize::MAX as usize {
                Some((size, align))
            } else {
                None
            },
            None => None,
        }
    }

    /// A buffer without messages, in which the stamp of each place is its number.
    pub fn allocate(capacity: usize) -> (array: Array<T>)
        ensures
            array.stamps@ == Seq::new(capacity as nat, |i: int| i as u32),
            array.values@ == Seq::new(capacity as nat, |i: int| None::<T>),
            array.stamps@ == Self::first_stamps(capacity as nat),
            array.stamps@.len() == capacity,
            array.values@.len() == capacity,
            forall|i: int|
                0 <= i < capacity && i <= u32::MAX ==> #[trigger] array.stamps@[i] == i,
            forall|i: int| 0 <= i < capacity ==> #[trigger] array.values@[i] is None,
    {
        let mut stamps: Vec<u32> = Vec::new();
        let mut values: Vec<Option<T>> = Vec::new();
        let mut i: usize = 0;
        while i < capacity
            invariant
                i <= capacity,
                stamps@ == Seq::new(i as nat, |i: int| i as u32),
                values@ == Seq::new(i as nat, |i: int| None::<T>),
            decreases capacity - i,
        {
            values.push(None);
            stamps.push(#[verifier::truncate] (i as u32));
            i = i + 1;
        }
        Array { stamps, values }
    }

    /// The stamp and the message of a place.
    pub fn slot(&self, index: u32) -> (slot: (&u32, &Option<T>))
        requires
            index < self.stamps@.len(),
            self.stamps@.len() == self.values@.len(),
        ensures
            slot.0 == self.stamps@[index as int],
            slot.1 == self.values@[index as int],
    {
        (&self.stamps[index as usize], &self.values[index as usize])
    }
}

/// The stamps of a buffer begin behind its values: each further place puts them further behind by
/// the size of a value. Without any place they lie behind the start by what the alignment of a
/// value lacks to that of a stamp, if it lacks anything.
pub proof fn law_offset<T>(value_size: usize, value_align: usize, capacity: usize)
    requires
        capacity < usize::MAX,
    ensures
        Array::<T>::offset(value_size, value_align, 0) + value_align == (if value_align > 4 {
            value_align as int
        } else {
            4
        }),
        Array::<T>::offset(value_size, value_align, (capacity + 1) as usize) - Array::<T>::offset(
            value_size,
            value_align,
            capacity,
        ) == value_size,
{
    assert(value_size * (capacity + 1) == value_size * capacity + value_size)
        by (nonlinear_arith);
    assert(value_size * 0 == 0) by (nonlinear_arith);
}

/// The memory of a buffer holds the values and, from the offset on, one stamp for each place. It
/// is aligned for both, and for no more. There is none only where the size, rounded up to the
/// alignment, is too large; and where there is one, there is one for any smaller capacity, smaller
/// by a value and a stamp for each place less.
pub proof fn law_layout<T>(value_size: usize, value_align: usize, capacity: usize)
    ensures
        Array::<T>::layout_of(value_size, value_align, capacity) matches Some((size, align)) ==> {
            &&& size == Array::<T>::offset(value_size, value_align, capacity) + 4 * capacity
            &&& align >= 4 && align >= value_align
            &&& align == 4 || align == value_align
            &&& size + align <= isize::MAX + 1
        },
        Array::<T>::layout_of(value_size, value_align, capacity) is None ==> Array::<T>::offset(
            value_size,
            value_align,
            capacity,
        ) + 4 * capacity + (if value_align > 4 {
            value_align as int
        } else {
            4
        }) > isize::MAX + 1,
        capacity > 0 ==> (Array::<T>::layout_of(value_size, value_align, capacity) matches Some(
            (size, align),
        ) ==> Array::<T>::layout_of(value_size, value_align, (capacity - 1) as usize) == Some(
            ((size - value_size - 4) as usize, align),
        )),
{
    assert(value_size * capacity >= 0) by (nonlinear_arith)
        requires
            value_size >= 0,
            capacity >= 0,
    ;
    if capacity > 0 {
        assert(value_size * (capacity - 1) == value_size * capacity - value_size)
            by (nonlinear_arith);
        assert(value_size * (capacity - 1) >= 0) by (nonlinear_arith)
            requires
                value_size >= 0,
                capacity >= 1,
        ;
    }
}

/// The stamp of each place of a buffer without messages is its number, which begins again at 0
/// after the largest that a stamp can hold.
pub proof fn law_stamps<T>(capacity: nat, place: int)
    requires
        0 <= place < capacity,
        place <= usize::MAX,
    ensures
        Array::<T>::first_stamps(capacity).len() == capacity,
        Array::<T>::first_stamps(capacity)[place] as int == place % 4294967296,
{
    let number = place as usize;
    assert(number as u32 as int == number as int % 4294967296) by {
        let wide = number as u64;
        assert(wide as u32 == wide % 4294967296) by (bit_vector);
        assert(number as u32 == wide as u32);
    }
}

/// What a sender that waits shows to the receiver, and what the receiver leaves there.
pub enum Entry<T> {
    /// The message has been taken.
    Empty,
    /// The message is waiting.
    Full(T),
    /// The receiver has hung up; the message comes back.
    Disconnected(T),
}

/// The word that waiting senders are linked to.
#[derive(PartialEq, Eq, Structural, Clone, Copy, Debug)]
pub enum Pending {
    /// Nobody waits.
    Nobody,
    /// The sender at this address waits; the others are linked behind it.
    Waiter(usize),
    /// The receiver has hung up.
    Closed,
}

/// What a sender does next.
pub enum BoundedSend<T> {
    /// Try to put the message into the buffer.
    Try(T),
    /// The buffer was full: look who waits.
    Load(T),
    /// Link up with those who wait, showing the message.
    Publish { next: Pending, entry: Entry<T> },
    /// Somebody else was faster: rest for a moment before the next try.
    Rest(T),
    /// Wake the receiver and wait for it.
    Wait,
    /// The send is over.
    Done(Result<(), T>),
}

/// What a sender is at, without the message.
#[derive(PartialEq, Eq, Structural, Clone, Copy, Debug)]
pub enum SendStage {
    Try,
    Load,
    Publish,
    Rest,
    Wait,
    Done,
}

/// What came of what a sender did. The message that was handed out for it comes back in it.
pub enum SendEvent<T> {
    /// Of a try: `Err(Ok(..))` gives the message back because the buffer was full,
    /// `Err(Err(..))` because the receiver has hung up.
    Tried(Result<(), Result<T, T>>),
    /// Of the look at who waits.
    Loaded { value: T, pending: Pending },
    /// Of the attempt to link up.
    Published { entry: Entry<T>, linked: bool },
    /// Of the rest.
    Rested(T),
    /// Of the wait: what the receiver has left.
    Waited(Entry<T>),
}

impl<T> SendEvent<T> {
    /// Whether the event can come of what a sender does at the stage. A sender shows a message
    /// that waits, and the receiver leaves none that does.
    pub open spec fn fits(self, stage: SendStage) -> bool {
        match self {
            SendEvent::Tried(_) => stage == SendStage::Try,
            SendEvent::Loaded { .. } => stage == SendStage::Load,
            SendEvent::Published { entry, .. } => stage == SendStage::Publish && entry is Full,
            SendEvent::Rested(_) => stage == SendStage::Rest,
            SendEvent::Waited(entry) => stage == SendStage::Wait && !(entry is Full),
        }
    }

    /// What the sender does after the event.
    pub open spec fn leads_to(self) -> BoundedSend<T> {
        match self {
            SendEvent::Tried(Ok(())) => BoundedSend::Done(Ok(())),
            SendEvent::Tried(Err(Ok(value))) => BoundedSend::Load(value),
            SendEvent::Tried(Err(Err(value))) => BoundedSend::Done(Err(value)),
            SendEvent::Loaded { value, pending } => if pending == Pending::Closed {
                BoundedSend::Done(Err(value))
            } else {
                BoundedSend::Publish { next: pending, entry: Entry::Full(value) }
            },
            SendEvent::Published { entry, linked } => if linked {
                BoundedSend::Wait
            } else {
                BoundedSend::Rest(entry->Full_0)
            },
            SendEvent::Rested(value) => BoundedSend::Try(value),
            SendEvent::Waited(Entry::Disconnected(value)) => BoundedSend::Done(Err(value)),
            SendEvent::Waited(_) => BoundedSend::Done(Ok(())),
        }
    }

    /// Whether the event says that the receiver has hung up.
    pub open spec fn hung_up(self) -> bool {
        match self {
            SendEvent::Tried(Err(Err(_))) => true,
            SendEvent::Loaded { pending, .. } => pending == Pending::Closed,
            SendEvent::Waited(entry) => entry is Disconnected,
            _ => false,
        }
    }

    /// Whether the event says that the receiver has the message, or that it is in the buffer.
    pub open spec fn delivered(self) -> bool {
        match self {
            SendEvent::Tried(outcome) => outcome is Ok,
            SendEvent::Waited(entry) => entry is Empty,
            _ => false,
        }
    }

    /// Whether no other message than `message` comes back in the event.
    pub open spec fn brings_back(self, message: T) -> bool {
        match self {
            SendEvent::Tried(Ok(())) => true,
            SendEvent::Tried(Err(Ok(value))) => value == message,
            SendEvent::Tried(Err(Err(value))) => value == message,
            SendEvent::Loaded { value, .. } => value == message,
            SendEvent::Published { entry, .. } => entry == Entry::Full(message),
            SendEvent::Rested(value) => value == message,
            SendEvent::Waited(Entry::Empty) => true,
            SendEvent::Waited(Entry::Full(value)) => value == message,
            SendEvent::Waited(Entry::Disconnected(value)) => value == message,
        }
    }
}

impl<T> BoundedSend<T> {
    /// A send that has done nothing yet.
    pub fn new(value: T) -> (send: BoundedSend<T>)
        ensures
            send == BoundedSend::Try(value),
    {
        BoundedSend::Try(value)
    }

    /// What the sender is at.
    pub open spec fn at(self) -> SendStage {
        match self {
            BoundedSend::Try(_) => SendStage::Try,
            BoundedSend::Load(_) => SendStage::Load,
            BoundedSend::Publish { .. } => SendStage::Publish,
            BoundedSend::Rest(_) => SendStage::Rest,
            BoundedSend::Wait => SendStage::Wait,
            BoundedSend::Done(_) => SendStage::Done,
        }
    }

    /// What the sender is at.
    pub fn stage(&self) -> (stage: SendStage)
        ensures
            stage == self.at(),
    {
        match self {
            BoundedSend::Try(_) => SendStage::Try,
            BoundedSend::Load(_) => SendStage::Load,
            BoundedSend::Publish { .. } => SendStage::Publish,
            BoundedSend::Rest(_) => SendStage::Rest,
            BoundedSend::Wait => SendStage::Wait,
            BoundedSend::Done(_) => SendStage::Done,
        }
    }

    /// What a sender at the stage does after the event.
    pub fn next(stage: SendStage, event: SendEvent<T>) -> (next: BoundedSend<T>)
        requires
            event.fits(stage),
        ensures
            next == event.leads_to(),
    {
        match event {
            SendEvent::Tried(outcome) => Self::tried(outcome),
            SendEvent::Loaded { value, pending } => Self::loaded(value, pending),
            SendEvent::Published { entry, linked } => Self::published(entry, linked),
            SendEvent::Rested(value) => BoundedSend::Try(value),
            SendEvent::Waited(entry) => Self::waited(entry),
        }
    }

    /// After a try.
    fn tried(outcome: Result<(), Result<T, T>>) -> (next: BoundedSend<T>)
        ensures
            next == SendEvent::Tried(outcome).leads_to(),
    {
        match outcome {
            Ok(()) => BoundedSend::Done(Ok(())),
            Err(Ok(value)) => BoundedSend::Load(value),
            Err(Err(value)) => BoundedSend::Done(Err(value)),
        }
    }

    /// After the look at who waits.
    fn loaded(value: T, pending: Pending) -> (next: BoundedSend<T>)
        ensures
            next == (SendEvent::Loaded { value, pending }).leads_to(),
    {
        if pending == Pending::Closed {
            BoundedSend::Done(Err(value))
        } else {
            BoundedSend::Publish { next: pending, entry: Entry::Full(value) }
        }
    }

    /// After the attempt to link up. If somebody else was faster, everything starts again after a
    /// rest.
    fn published(entry: Entry<T>, linked: bool) -> (next: BoundedSend<T>)
        requires
            entry is Full,
        ensures
            next == (SendEvent::Published { entry, linked }).leads_to(),
    {
        if linked {
            return BoundedSend::Wait;
        }
        match entry {
            Entry::Full(value) => BoundedSend::Rest(value),
            Entry::Disconnected(value) => BoundedSend::Rest(value),
            Entry::Empty => BoundedSend::Wait,
        }
    }

    /// After the wait: what the receiver has left. It leaves no message that still waits.
    fn waited(entry: Entry<T>) -> (next: BoundedSend<T>)
        requires
            !(entry is Full),
        ensures
            next == SendEvent::Waited(entry).leads_to(),
    {
        match entry {
            Entry::Disconnected(value) => BoundedSend::Done(Err(value)),
            _ => BoundedSend::Done(Ok(())),
        }
    }

    /// Whether the sender has the message `message`, as it does until it shows it to the receiver
    /// or is rid of it, and no other.
    pub open spec fn has(self, message: T) -> bool {
        match self {
            BoundedSend::Try(value) => value == message,
            BoundedSend::Load(value) => value == message,
            BoundedSend::Publish { entry, .. } => entry == Entry::Full(message),
            BoundedSend::Rest(value) => value == message,
            BoundedSend::Wait => true,
            BoundedSend::Done(Ok(())) => true,
            BoundedSend::Done(Err(value)) => value == message,
        }
    }

    /// What a send of `value` does after a row of events.
    pub open spec fn run(value: T, events: Seq<SendEvent<T>>) -> BoundedSend<T> {
        if events.len() == 0 {
            BoundedSend::Try(value)
        } else {
            events.last().leads_to()
        }
    }

    /// Whether a row of events can come of a send of `value`: each comes of what the sender does
    /// when its turn comes, and brings back the message that was handed out.
    pub open spec fn can_run(value: T, events: Seq<SendEvent<T>>) -> bool
        decreases events.len(),
    {
        events.len() > 0 ==> {
            &&& Self::can_run(value, events.drop_last())
            &&& events.last().fits(Self::run(value, events.drop_last()).at())
            &&& events.last().brings_back(value)
        }
    }
}

/// A bounded send never loses or swaps its message: what it tries to send, shows to the receiver,
/// and gives back when it fails is the message that it was given.
pub proof fn law_bounded_message<T>(value: T, events: Seq<SendEvent<T>>)
    requires
        BoundedSend::can_run(value, events),
    ensures
        BoundedSend::run(value, events).has(value),
        BoundedSend::run(value, events) matches BoundedSend::Done(Err(back)) ==> back == value,
{
}

/// A bounded send fails when it learns that the receiver has hung up, and then only. It succeeds
/// when its message is in the buffer or with the receiver, and then only. A full buffer makes it
/// look who waits, with its message, and never fail.
pub proof fn law_bounded_end<T>(value: T, events: Seq<SendEvent<T>>)
    requires
        BoundedSend::can_run(value, events),
    ensures
        BoundedSend::run(value, events) == BoundedSend::Done(Err::<(), T>(value)) <==> events.len()
            > 0 && events.last().hung_up(),
        BoundedSend::run(value, events) == BoundedSend::Done(Ok::<(), T>(())) <==> events.len() > 0
            && events.last().delivered(),
        events.len() > 0 && events.last() == SendEvent::Tried(Err::<(), Result<T, T>>(Ok(value)))
            ==> BoundedSend::run(value, events) == BoundedSend::Load(value),
{
}

/// A sender that finds the buffer full links up with exactly those who wait already: whatever the
/// word holds, unless the receiver has hung up, is what the sender shows as standing behind it,
/// together with its own message.
pub proof fn law_bounded_link<T>(value: T, pending: Pending)
    requires
        pending != Pending::Closed,
    ensures
        (SendEvent::Loaded { value, pending }).leads_to() matches BoundedSend::Publish {
            next,
            entry,
        } && next == pending && entry == Entry::Full(value),
{
}

/// What a sender does, by what came of its last action, for every message and every word: a try
/// that succeeded ends the send, one on a full buffer has it look who waits, and one that the
/// receiver's hang-up stopped gives the message back; so does the word of a receiver that has hung
/// up. A sender that has linked up waits; one that has not rests with its message, and tries it
/// again. After the wait the send has succeeded where nothing is left, and gives back what the
/// receiver has given up.
pub proof fn law_bounded_next<T>(value: T, next: Pending)
    ensures
        SendEvent::Tried(Ok::<(), Result<T, T>>(())).leads_to() == BoundedSend::Done(
            Ok::<(), T>(()),
        ),
        SendEvent::Tried(Err::<(), Result<T, T>>(Ok(value))).leads_to() == BoundedSend::Load(value),
        SendEvent::Tried(Err::<(), Result<T, T>>(Err(value))).leads_to() == BoundedSend::Done(
            Err::<(), T>(value),
        ),
        (SendEvent::Loaded { value, pending: Pending::Closed }).leads_to() == BoundedSend::Done(
            Err::<(), T>(value),
        ),
        (SendEvent::Published { entry: Entry::Full(value), linked: true }).leads_to()
            == BoundedSend::<T>::Wait,
        (SendEvent::Published { entry: Entry::Full(value), linked: false }).leads_to()
            == BoundedSend::Rest(value),
        SendEvent::Rested(value).leads_to() == BoundedSend::Try(value),
        SendEvent::Waited(Entry::<T>::Empty).leads_to() == BoundedSend::Done(Ok::<(), T>(())),
        SendEvent::Waited(Entry::Disconnected(value)).leads_to() == BoundedSend::Done(
            Err::<(), T>(value),
        ),
        BoundedSend::Try(value).at() == SendStage::Try,
        BoundedSend::Load(value).at() == SendStage::Load,
        (BoundedSend::Publish { next, entry: Entry::Full(value) }).at() == SendStage::Publish,
        BoundedSend::Rest(value).at() == SendStage::Rest,
        BoundedSend::<T>::Wait.at() == SendStage::Wait,
        BoundedSend::Done(Err::<(), T>(value)).at() == SendStage::Done,
        BoundedSend::Done(Ok::<(), T>(())).at() == SendStage::Done,
{
}

/// Which event can come of which action: of each action one kind, and of the end of a send none.
pub proof fn law_bounded_fits<T>(event: SendEvent<T>)
    ensures
        event.fits(SendStage::Try) <==> event is Tried,
        event.fits(SendStage::Load) <==> event is Loaded,
        event.fits(SendStage::Publish) <==> (event matches SendEvent::Published { entry, .. }
            && entry is Full),
        event.fits(SendStage::Rest) <==> event is Rested,
        event.fits(SendStage::Wait) <==> (event matches SendEvent::Waited(entry) && !(
        entry is Full)),
        !event.fits(SendStage::Done),
{
}

/// A bounded send that somebody else was faster than rests, and then tries again from the start
/// with the same message.
pub proof fn law_bounded_retry<T>(value: T, next: Pending)
    ensures
        (SendEvent::Published { entry: Entry::Full(value), linked: false }).fits(
            (BoundedSend::Publish { next, entry: Entry::Full(value) }).at(),
        ),
        (SendEvent::Published { entry: Entry::Full(value), linked: false }).leads_to()
            == BoundedSend::Rest(value),
        SendEvent::Rested(value).fits(BoundedSend::Rest(value).at()),
        SendEvent::Rested(value).leads_to() == BoundedSend::Try(value),
{
}

/// A bounded send that is over stays so: nothing comes of it any more.
pub proof fn law_bounded_over<T>(value: T, events: Seq<SendEvent<T>>, event: SendEvent<T>)
    requires
        BoundedSend::can_run(value, events),
        BoundedSend::run(value, events) is Done,
    ensures
        !BoundedSend::can_run(value, events.push(event)),
{
    assert(events.push(event).drop_last() =~= events);
}

/// Where a receiver finds the senders that wait.
#[derive(PartialEq, Eq, Structural, Clone, Copy, Debug)]
pub enum Collect {
    /// Nobody waits.
    Nobody,
    /// The sender at this address is the next one.
    Next(usize),
    /// Take over those who are linked to the word, leaving nobody there.
    Swap,
}

impl Collect {
    /// Where the receiver looks, from whom it keeps and from the word.
    pub open spec fn first(kept: Option<usize>, pending: Pending) -> Collect {
        match kept {
            Some(waiter) => Collect::Next(waiter),
            None => if pending == Pending::Nobody {
                Collect::Nobody
            } else {
                Collect::Swap
            },
        }
    }

    /// Who comes next, from what the receiver has taken over from the word.
    pub open spec fn taken_over(pending: Pending) -> Collect {
        match pending {
            Pending::Waiter(waiter) => Collect::Next(waiter),
            _ => Collect::Nobody,
        }
    }

    /// Whom the receiver keeps, from the `next` of the sender that it turns to.
    pub open spec fn rest(self, next: Pending) -> Option<usize> {
        match (self, next) {
            (Collect::Next(_), Pending::Waiter(waiter)) => Some(waiter),
            _ => None,
        }
    }

    /// The senders that the receiver took over before come first; only then does it look at the
    /// word. A receiver that is there has not hung up.
    pub fn of(kept: Option<usize>, pending: Pending) -> (collect: Collect)
        requires
            kept is None ==> pending != Pending::Closed,
        ensures
            collect == (match kept {
                Some(waiter) => Collect::Next(waiter),
                None => if pending == Pending::Nobody {
                    Collect::Nobody
                } else {
                    Collect::Swap
                },
            }),
            collect == Self::first(kept, pending),
    {
        match kept {
            Some(waiter) => Collect::Next(waiter),
            None => if pending == Pending::Nobody {
                Collect::Nobody
            } else {
                Collect::Swap
            },
        }
    }

    /// After those who wait have been taken over: who comes next.
    pub fn swapped(pending: Pending) -> (collect: Collect)
        requires
            pending != Pending::Closed,
        ensures
            collect == (match pending {
                Pending::Waiter(waiter) => Collect::Next(waiter),
                _ => Collect::Nobody,
            }),
            collect == Self::taken_over(pending),
    {
        match pending {
            Pending::Waiter(waiter) => Collect::Next(waiter),
            _ => Collect::Nobody,
        }
    }

    /// The senders that the receiver keeps when it turns to the next one: those that are linked
    /// behind it, as its `next` tells. Where nobody waits, it keeps nobody.
    pub fn kept(self, next: Pending) -> (kept: Option<usize>)
        requires
            self != Collect::Swap,
            next != Pending::Closed,
        ensures
            kept == (match (self, next) {
                (Collect::Next(_), Pending::Waiter(waiter)) => Some(waiter),
                _ => None,
            }),
            kept == self.rest(next),
    {
        match (self, next) {
            (Collect::Next(_), Pending::Waiter(waiter)) => Some(waiter),
            _ => None,
        }
    }
}

/// A receiver turns to those it keeps, whatever the word holds; only with nobody kept does it take
/// over those at the word, if there are any. It turns to the very sender that the word or a `next`
/// names, and keeps the very one that its `next` names.
pub proof fn law_collect(waiter: usize, behind: usize, pending: Pending)
    ensures
        Collect::first(Some(waiter), pending) == Collect::Next(waiter),
        Collect::first(None, Pending::Nobody) == Collect::Nobody,
        Collect::first(None, Pending::Waiter(waiter)) == Collect::Swap,
        Collect::taken_over(Pending::Waiter(waiter)) == Collect::Next(waiter),
        Collect::taken_over(Pending::Nobody) == Collect::Nobody,
        Collect::Next(waiter).rest(Pending::Waiter(behind)) == Some(behind),
        Collect::Next(waiter).rest(Pending::Nobody) is None,
        Collect::Nobody.rest(pending) is None,
{
}

/// The word that names sender `i` of a row, or nobody behind its end.
pub open spec fn named(row: Seq<usize>, i: int) -> Pending {
    if 0 <= i < row.len() {
        Pending::Waiter(row[i])
    } else {
        Pending::Nobody
    }
}

/// Whom a receiver keeps after it has turned to `count` senders of a row that it took over, each
/// of which names the one behind it.
pub open spec fn kept_after(row: Seq<usize>, count: nat) -> Option<usize>
    decreases count,
{
    if count == 0 {
        None
    } else if count == 1 {
        Collect::taken_over(named(row, 0)).rest(named(row, 1))
    } else {
        Collect::first(kept_after(row, (count - 1) as nat), Pending::Nobody).rest(
            named(row, count as int),
        )
    }
}

/// A receiver that takes over a row of waiting senders turns to each of them once, in the order of
/// the row, and then keeps nobody.
pub proof fn law_whole_row(row: Seq<usize>, count: nat)
    requires
        1 <= count <= row.len(),
    ensures
        Collect::taken_over(named(row, 0)) == Collect::Next(row[0]),
        count < row.len() ==> kept_after(row, count) == Some(row[count as int]),
        count == row.len() ==> kept_after(row, count) is None,
    decreases count,
{
    if count > 1 {
        law_whole_row(row, (count - 1) as nat);
    }
}

/// What a receiver does next.
pub enum BoundedRecv<T> {
    /// Wait for a sender, then look again.
    Wait,
    /// The receive is over.
    Done(Result<Option<T>, ()>),
}

impl<T> BoundedRecv<T> {
    /// What comes of a look at the buffer.
    pub open spec fn decision(outcome: Result<Option<T>, ()>, timed_out: bool) -> BoundedRecv<T> {
        if outcome is Ok && outcome->Ok_0 is None && !timed_out {
            BoundedRecv::Wait
        } else {
            BoundedRecv::Done(outcome)
        }
    }

    /// After a look at the buffer. Once the time has run out, the receiver does not wait again.
    pub fn polled(outcome: Result<Option<T>, ()>, timed_out: bool) -> (next: BoundedRecv<T>)
        ensures
            next == (if outcome is Ok && outcome->Ok_0 is None && !timed_out {
                BoundedRecv::<T>::Wait
            } else {
                BoundedRecv::Done(outcome)
            }),
            next == Self::decision(outcome, timed_out),
    {
        let nothing = match &outcome {
            Ok(None) => true,
            _ => false,
        };
        if nothing && !timed_out {
            BoundedRecv::Wait
        } else {
            BoundedRecv::Done(outcome)
        }
    }
}

/// A receiver that finds a message, or that all senders have hung up, is done with that, whether or
/// not its time has run out. One that finds nothing waits while it has time, and is done with
/// nothing when it has none.
pub proof fn law_bounded_recv<T>(value: T, timed_out: bool)
    ensures
        BoundedRecv::decision(Ok(Some(value)), timed_out) == BoundedRecv::Done(Ok(Some(value))),
        BoundedRecv::<T>::decision(Err(()), timed_out) == BoundedRecv::<T>::Done(Err(())),
        BoundedRecv::<T>::decision(Ok(None), false) == BoundedRecv::<T>::Wait,
        BoundedRecv::<T>::decision(Ok(None), true) == BoundedRecv::<T>::Done(Ok(None)),
{
}

} // verus!
