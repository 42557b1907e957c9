//! What can go wrong on a channel.

use vstd::prelude::*;

verus! {

/// A send failed because the receiver has hung up. It holds the message, which is not lost.
#[derive(PartialEq, Eq, Clone, Copy)]
pub struct SendError<T>(pub T);

/// A receive failed because all senders have hung up and every message has been received.
#[derive(PartialEq, Eq, Structural, Clone, Copy, Debug)]
pub struct RecvError;

/// Why a receive that does not wait found no message.
#[derive(PartialEq, Eq, Structural, Clone, Copy, Debug)]
pub enum TryRecvError {
    /// There is no message now, but there may be one later.
    Empty,
    /// All senders have hung up, and every message has been received.
    Disconnected,
}

/// Why a receive that waits for a time found no message.
#[derive(PartialEq, Eq, Structural, Clone, Copy, Debug)]
pub enum RecvTimeoutError {
    /// No message came in time, but there may be one later.
    Timeout,
    /// All senders have hung up, and every message has been received.
    Disconnected,
}

impl<T> SendError<T> {
    /// The error in words.
    pub fn message(&self) -> (text: &'static str)
        ensures
            text@ == "sending on a closed channel"@,
    {
        "sending on a closed channel"
    }

    /// The error for a programmer. Like the error in words, it says nothing of the message, which
    /// need not be printable.
    pub fn debug_message(&self) -> (text: &'static str)
        ensures
            text@ == "SendError { .. }"@,
    {
        "SendError { .. }"
    }
}

impl RecvError {
    /// The error in words.
    pub fn message(&self) -> (text: &'static str)
        ensures
            text@ == "receiving on a closed channel"@,
    {
        "receiving on a closed channel"
    }
}

impl TryRecvError {
    /// The error in words.
    pub fn message(&self) -> (text: &'static str)
        ensures
            text@ == (match *self {
                TryRecvError::Empty => "receiving on an empty channel"@,
                TryRecvError::Disconnected => "receiving on a closed channel"@,
            }),
    {
        match *self {
            TryRecvError::Empty => "receiving on an empty channel",
            TryRecvError::Disconnected => "receiving on a closed channel",
        }
    }
}

impl RecvTimeoutError {
    /// The error in words.
    pub fn message(&self) -> (text: &'static str)
        ensures
            text@ == (match *self {
                RecvTimeoutError::Timeout => "timed out waiting on channel"@,
                RecvTimeoutError::Disconnected => "channel is empty and sending half is closed"@,
            }),
    {
        match *self {
            RecvTimeoutError::Timeout => "timed out waiting on channel",
            RecvTimeoutError::Disconnected => "channel is empty and sending half is closed",
        }
    }
}

impl From<RecvError> for TryRecvError {
    /// A channel that has hung up is `Disconnected`.
    fn from(err: RecvError) -> (converted: TryRecvError) {
        match err {
            RecvError => TryRecvError::Disconnected,
        }
    }
}

impl vstd::std_specs::convert::FromSpecImpl<RecvError> for TryRecvError {
    open spec fn obeys_from_spec() -> bool {
        true
    }

    open spec fn from_spec(err: RecvError) -> TryRecvError {
        TryRecvError::Disconnected
    }
}

impl From<RecvError> for RecvTimeoutError {
    /// A channel that has hung up is `Disconnected`.
    fn from(err: RecvError) -> (converted: RecvTimeoutError) {
        match err {
            RecvError => RecvTimeoutError::Disconnected,
        }
    }
}

impl vstd::std_specs::convert::FromSpecImpl<RecvError> for RecvTimeoutError {
    open spec fn obeys_from_spec() -> bool {
        true
    }

    open spec fn from_spec(err: RecvError) -> RecvTimeoutError {
        RecvTimeoutError::Disconnected
    }
}

} // verus!
