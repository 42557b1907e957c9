//! The core of an unbounded FIFO channel from many senders to one receiver.
//!
//! A channel has two halves, [`RawSender`] and [`RawReceiver`]. Messages come out in the order in
//! which they were sent. A send never waits, and fails only when the receiver has hung up; then
//! it gives its message back. A receive fails only when all senders have hung up and every message
//! has been received.
//!
//! The messages travel in a [`Queue`] of linked blocks. A send, [`SendOp`], and a receive,
//! [`RecvOp`], touch the memory of the queue one access at a time, so that the accesses of any
//! number of threads can be mixed in any order. What an access does is said in [`state`], what
//! goes on when many threads are at work in [`protocol`], and what holds whatever the order of
//! their accesses in [`laws`]. What holds of whole operations, one after the other, is said in
//! [`calls`], and of receives that wait in [`wait`].
//!
//! Nothing here sleeps, wakes a thread or locks. The halves work on a [`Shared`] part that is
//! lent to them; where a thread has to sleep or to be woken, the result of an operation says so.

pub mod backoff;
pub mod bench;
pub mod block;
pub mod bounded;
pub mod calls;
pub mod channel;
pub mod counts;
pub mod error;
pub mod event;
pub mod laws;
pub mod padded;
pub mod parker;
pub mod protocol;
pub mod queue;
pub mod state;
pub mod wait;

pub use backoff::Backoff;
pub use block::{Block, Slot, SlotState, BLOCK_ALIGN, BLOCK_SIZE, DISCONNECT_BIT, INDEX_SHIFT};
pub use channel::{raw_channel, RawReceiver, RawSender, Shared};
pub use error::{RecvError, RecvTimeoutError, SendError, TryRecvError};
pub use event::{Event, TimedEvent, TimedWait, WaitAction};
pub use parker::{ParkState, Parker, TryParkResult};
pub use queue::{Queue, RecvOp, SendOp};
pub use state::{QueueState, RecvPhase, RecvState, SendPhase, SendState, Signal};
pub use wait::{RecvRound, TimedRound, TimedWaiting, Waiting};
