//! Errors that a system call reports to its caller.
use vstd::prelude::*;

verus! {

/// The closed set of system call failures.
#[derive(Clone, Copy, Debug, PartialEq, Eq, Structural)]
pub enum SystemCallError {
    AddressConflict,
    BufferTooSmall,
    IllegalArgument,
    InternalError,
    InvalidAddress,
    MailboxFull,
    MemoryNotAccessible,
    NotMapped,
    NotSupported,
    ObjectBusy,
    ObjectClosed,
    ObjectNotAvailable,
    ObjectNotFound,
    OutOfMemory,
    QuotaExceeded,
    ReachLimit,
    RightsDenied,
    StaleHandle,
    WrongObjectType,
}

} // verus!
