//! The error kinds surfaced by channel, process and supervisor operations.

use vstd::prelude::*;

verus! {

/// Everything that can go wrong in the execution core.
///
/// Each variant names one failure condition; operations state in their
/// contracts exactly which inputs produce which variant.
#[derive(Clone, Copy, Debug, PartialEq, Eq, Structural)]
pub enum OsError {
    /// A virtual path could not be resolved to a backing artifact.
    ResolveFailed,
    /// A write was attempted on a channel that has been closed.
    ChannelClosed,
    /// A second waiter tried to attach while one was already outstanding.
    ChannelBusy,
    /// The file descriptor is already open.
    AlreadyOpen,
    /// The file descriptor is not open.
    NotOpen,
    /// The process identifier is unknown or already reaped.
    NoSuchProcess,
    /// Module execution finished without ever invoking the exit hook.
    Zombie,
    /// A state machine was observed in an impossible variant.
    Unexpected,
}

impl OsError {
    /// The description of each error kind.
    pub open spec fn message_spec(self) -> Seq<char> {
        match self {
            OsError::ResolveFailed => "failed to resolve path"@,
            OsError::ChannelClosed => "stream closed"@,
            OsError::ChannelBusy => "channel busy"@,
            OsError::AlreadyOpen => "already open"@,
            OsError::NotOpen => "not open"@,
            OsError::NoSuchProcess => "no such process"@,
            OsError::Zombie => "zombie process"@,
            OsError::Unexpected => "unexpected state"@,
        }
    }

    /// A human-readable description of the error.
    pub fn message(&self) -> (r: &'static str)
        ensures
            r@ == self.message_spec(),
    {
        match self {
            OsError::ResolveFailed => "failed to resolve path",
            OsError::ChannelClosed => "stream closed",
            OsError::ChannelBusy => "channel busy",
            OsError::AlreadyOpen => "already open",
            OsError::NotOpen => "not open",
            OsError::NoSuchProcess => "no such process",
            OsError::Zombie => "zombie process",
            OsError::Unexpected => "unexpected state",
        }
    }
}

} // verus!
