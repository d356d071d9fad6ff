//! Publishing, duplicating, closing and retiring handles.
use vstd::prelude::*;

use crate::error::SystemCallError;
use crate::handle;
use crate::handle::{CallFailure, ProcessHandleEntry, TableError};
use crate::ids;
use crate::ids::IdSequence;
use crate::object::{HandleRole, Koid, ObjectKind};

verus! {

/// A fresh token for a transaction on handle tables.
pub fn transaction_token(tokens: &mut IdSequence) -> (r: Result<u64, SystemCallError>)
    ensures
        r == match old(tokens)@ {
            Some(token) => Ok::<u64, SystemCallError>(token),
            None => Err(SystemCallError::ReachLimit),
        },
        final(tokens)@ == ids::after(old(tokens)@),
{
    match tokens.allocate() {
        Some(token) => Ok(token),
        None => Err(SystemCallError::ReachLimit),
    }
}

/// How a close starts.
#[derive(Clone, Copy, Debug, PartialEq, Eq, Structural)]
pub enum HandleCloseStart {
    /// It is done.
    Ready,
    /// The caller waits for this.
    Wait(u64),
}

/// What closing an entry, which is out of its table already, does to the object.
#[derive(Clone, Copy, Debug, PartialEq, Eq, Structural)]
pub enum CloseAction {
    /// Retires it step by step.
    Retire(Koid),
    /// Goes on closing a tunnel endpoint whose process has ended.
    Detach(Koid),
    /// Tells it that a handle in this role is gone.
    CloseHandle(Koid, HandleRole),
}

/// What closing an entry does; `retires` says whether its object is one that is retired
/// step by step.
pub open spec fn close_action(entry: ProcessHandleEntry, retires: bool) -> CloseAction {
    if retires {
        CloseAction::Retire(entry.object)
    } else if entry.kind == ObjectKind::TunnelEndpoint {
        CloseAction::Detach(entry.object)
    } else {
        CloseAction::CloseHandle(entry.object, entry.role)
    }
}

/// Closes an entry that is out of its table. Objects that take time to close are closed
/// here only when their process has ended; a caller closes them with [`close`].
pub fn close_entry(entry: ProcessHandleEntry, retires: bool, exiting: bool) -> (r: CloseAction)
    requires
        (retires || entry.kind == ObjectKind::TunnelEndpoint) ==> exiting,
    ensures
        r == close_action(entry, retires),
{
    if retires {
        return CloseAction::Retire(entry.object);
    }
    if entry.kind == ObjectKind::TunnelEndpoint {
        return CloseAction::Detach(entry.object);
    }
    CloseAction::CloseHandle(entry.object, entry.role)
}

/// A close of a process that has ended, on its way.
#[derive(Clone, Copy, Debug, PartialEq, Eq, Structural)]
pub enum PendingClose {
    Entry(ProcessHandleEntry),
    /// The object is being retired.
    Retirement(Koid),
}

/// What an advance of a close comes to.
#[derive(Clone, Copy, Debug, PartialEq, Eq, Structural)]
pub struct CloseProgress {
    pub work: usize,
    /// What closing the entry does, if it was closed just now.
    pub action: Option<CloseAction>,
    pub left: Option<PendingClose>,
}

/// Starts to close an entry of a process that has ended: an object that retires is waited
/// for, any other is done with at once.
pub fn retire_entry(entry: ProcessHandleEntry, retires: bool) -> (r: CloseProgress)
    ensures
        r == (CloseProgress {
            work: 1,
            action: Some(close_action(entry, retires)),
            left: if retires {
                Some(PendingClose::Retirement(entry.object))
            } else {
                None
            },
        }),
{
    let action = close_entry(entry, retires, true);
    if retires {
        return CloseProgress {
            work: 1,
            action: Some(action),
            left: Some(PendingClose::Retirement(entry.object)),
        };
    }
    CloseProgress { work: 1, action: Some(action), left: None }
}

impl PendingClose {
    /// The object whose retirement is waited for.
    pub fn dependency(&self) -> (r: Koid)
        requires
            *self is Retirement,
        ensures
            *self == PendingClose::Retirement(r),
    {
        match self {
            PendingClose::Retirement(object) => *object,
            PendingClose::Entry(entry) => entry.object,
        }
    }

    /// Goes on; `retires` says whether the object is one that is retired step by step,
    /// `finished` whether its retirement is over. Waiting takes no work.
    pub fn advance(self, retires: bool, finished: bool) -> (r: CloseProgress)
        ensures
            r == match self {
                PendingClose::Entry(entry) => CloseProgress {
                    work: 1,
                    action: Some(close_action(entry, retires)),
                    left: if retires {
                        Some(PendingClose::Retirement(entry.object))
                    } else {
                        None
                    },
                },
                PendingClose::Retirement(object) => if finished {
                    CloseProgress { work: 1, action: None, left: None }
                } else {
                    CloseProgress {
                        work: 0,
                        action: None,
                        left: Some(PendingClose::Retirement(object)),
                    }
                },
            },
    {
        match self {
            PendingClose::Entry(entry) => retire_entry(entry, retires),
            PendingClose::Retirement(object) => if finished {
                CloseProgress { work: 1, action: None, left: None }
            } else {
                CloseProgress {
                    work: 0,
                    action: None,
                    left: Some(PendingClose::Retirement(object)),
                }
            },
        }
    }
}

/// What a caller's close of a handle does.
#[derive(Clone, Copy, Debug, PartialEq, Eq, Structural)]
pub struct CloseOutcome {
    pub start: HandleCloseStart,
    /// The entry leaves the table here; a tunnel endpoint leaves with its own commit.
    pub remove: bool,
    /// What the object is told.
    pub action: Option<CloseAction>,
}

/// Closes a handle for a caller. `found` is what its lookup gave; `retires` whether its
/// object is one that is retired step by step; `tunnel` what closing a tunnel endpoint
/// gave, `begun` what beginning a retirement gave: what the caller waits for, or why not.
/// Until a retirement has begun the entry stays.
pub fn close(
    found: Result<ProcessHandleEntry, TableError>,
    retires: bool,
    tunnel: Result<u64, SystemCallError>,
    begun: Result<u64, SystemCallError>,
) -> (r: Result<CloseOutcome, SystemCallError>)
    ensures
        r == match found {
            Err(error) => Err::<CloseOutcome, _>(handle::reported(error)),
            Ok(entry) => if entry.kind == ObjectKind::TunnelEndpoint {
                match tunnel {
                    Err(error) => Err(error),
                    Ok(wait) => Ok(
                        CloseOutcome {
                            start: HandleCloseStart::Wait(wait),
                            remove: false,
                            action: None,
                        },
                    ),
                }
            } else if retires {
                match begun {
                    Err(error) => Err(error),
                    Ok(wait) => Ok(
                        CloseOutcome {
                            start: HandleCloseStart::Wait(wait),
                            remove: true,
                            action: None,
                        },
                    ),
                }
            } else {
                Ok(
                    CloseOutcome {
                        start: HandleCloseStart::Ready,
                        remove: true,
                        action: Some(CloseAction::CloseHandle(entry.object, entry.role)),
                    },
                )
            },
        },
{
    let entry = match found {
        Err(error) => {
            return Err(handle::map_error(error));
        },
        Ok(entry) => entry,
    };
    if entry.kind == ObjectKind::TunnelEndpoint {
        return match tunnel {
            Err(error) => Err(error),
            Ok(wait) => Ok(
                CloseOutcome { start: HandleCloseStart::Wait(wait), remove: false, action: None },
            ),
        };
    }
    if retires {
        return match begun {
            Err(error) => Err(error),
            Ok(wait) => Ok(
                CloseOutcome { start: HandleCloseStart::Wait(wait), remove: true, action: None },
            ),
        };
    }
    let action = close_entry(entry, false, false);
    Ok(CloseOutcome { start: HandleCloseStart::Ready, remove: true, action: Some(action) })
}

/// Entries that are on their way into a table. Room for each is had before it comes, so
/// that adding one cannot fail.
pub struct PendingEntries {
    entries: Vec<ProcessHandleEntry>,
    room: usize,
}

/// The same as a value.
#[verifier::ext_equal]
pub struct PendingEntriesView {
    pub entries: Seq<ProcessHandleEntry>,
    /// For how many entries there is room.
    pub room: usize,
}

impl View for PendingEntries {
    type V = PendingEntriesView;

    closed spec fn view(&self) -> PendingEntriesView {
        PendingEntriesView { entries: self.entries@, room: self.room }
    }
}

impl PendingEntries {
    pub open spec fn wf(&self) -> bool {
        self@.entries.len() <= self@.room
    }

    /// None yet, with room for `capacity`; `memory` says whether that could be had.
    pub fn try_new(capacity: usize, memory: bool) -> (r: Result<PendingEntries, SystemCallError>)
        ensures
            match r {
                Err(error) => !memory && error == SystemCallError::OutOfMemory,
                Ok(pending) => memory && pending.wf() && pending@ == (PendingEntriesView {
                    entries: Seq::empty(),
                    room: capacity,
                }),
            },
    {
        if !memory {
            return Err(SystemCallError::OutOfMemory);
        }
        Ok(PendingEntries { entries: Vec::new(), room: capacity })
    }

    /// Makes room for `additional` more than there are; `memory` says whether that could
    /// be had.
    pub fn try_reserve(&mut self, additional: usize, memory: bool) -> (r: Result<
        (),
        SystemCallError,
    >)
        requires
            old(self).wf(),
            old(self)@.entries.len() + additional <= usize::MAX,
        ensures
            final(self).wf(),
            r == if memory {
                Ok::<(), SystemCallError>(())
            } else {
                Err(SystemCallError::OutOfMemory)
            },
            final(self)@ == if memory && old(self)@.room < old(self)@.entries.len() + additional {
                PendingEntriesView {
                    room: (old(self)@.entries.len() + additional) as usize,
                    ..old(self)@
                }
            } else {
                old(self)@
            },
    {
        if !memory {
            return Err(SystemCallError::OutOfMemory);
        }
        let wanted: usize = self.entries.len() + additional;
        if self.room < wanted {
            self.room = wanted;
        }
        Ok(())
    }

    pub fn push(&mut self, entry: ProcessHandleEntry)
        requires
            old(self).wf(),
            old(self)@.entries.len() < old(self)@.room,
        ensures
            final(self).wf(),
            final(self)@ == (PendingEntriesView {
                entries: old(self)@.entries.push(entry),
                ..old(self)@
            }),
    {
        self.entries.push(entry);
    }

    /// All of them, to be entered or closed.
    pub fn take(self) -> (r: Vec<ProcessHandleEntry>)
        ensures
            r@ == self@.entries,
    {
        self.entries
    }
}

/// What publishing a handle meets with once its slot is wanted. Only what is reached counts.
#[derive(Clone, Copy, Debug, PartialEq, Eq)]
pub struct PublishOutcomes {
    /// The handle of the slot that was reserved, which nobody sees yet.
    pub slot: Result<u64, TableError>,
    /// Whether the handle can be written where the caller wants it.
    pub output: Result<(), SystemCallError>,
    /// What writing it gave. A caller to whom it cannot be written after all is killed, and
    /// its slot goes with it.
    pub delivered: Result<(), SystemCallError>,
}

/// How publishing a handle fails.
pub open spec fn publish_failure(p: PublishOutcomes) -> Option<CallFailure> {
    if p.slot is Err {
        Some(CallFailure { error: handle::reported(p.slot->Err_0), give_back: false })
    } else if p.output is Err {
        Some(CallFailure { error: p.output->Err_0, give_back: true })
    } else if p.delivered is Err {
        Some(CallFailure { error: p.delivered->Err_0, give_back: false })
    } else {
        None
    }
}

/// The handle to publish, once everything that can fail is done.
fn publish(p: &PublishOutcomes) -> (r: Result<u64, CallFailure>)
    ensures
        r == match publish_failure(*p) {
            Some(failure) => Err(failure),
            None => Ok::<u64, CallFailure>(p.slot->Ok_0),
        },
{
    let slot: u64 = match p.slot {
        Err(error) => {
            return Err(CallFailure { error: handle::map_error(error), give_back: false });
        },
        Ok(slot) => slot,
    };
    match p.output {
        Err(error) => {
            return Err(CallFailure { error, give_back: true });
        },
        Ok(_) => {},
    }
    match p.delivered {
        Err(error) => Err(CallFailure { error, give_back: false }),
        Ok(_) => Ok(slot),
    }
}

/// Publishes one handle: the slot is reserved, its handle is written to the caller, then the
/// object is committed, and only then does the entry become visible. `room` says whether there
/// is memory for the entry. Success gives the handle and the entry to put behind it; after a
/// failure neither object nor entry has been published.
pub fn install_one(
    tokens: &mut IdSequence,
    entry: ProcessHandleEntry,
    room: bool,
    p: &PublishOutcomes,
) -> (r: Result<(u64, ProcessHandleEntry), CallFailure>)
    ensures
        final(tokens)@ == if room {
            ids::after(old(tokens)@)
        } else {
            old(tokens)@
        },
        r == if !room {
            Err::<(u64, ProcessHandleEntry), _>(
                CallFailure { error: SystemCallError::OutOfMemory, give_back: false },
            )
        } else if old(tokens)@ is None {
            Err(CallFailure { error: SystemCallError::ReachLimit, give_back: false })
        } else {
            match publish_failure(*p) {
                Some(failure) => Err(failure),
                None => Ok((p.slot->Ok_0, entry)),
            }
        },
{
    if !room {
        return Err(CallFailure { error: SystemCallError::OutOfMemory, give_back: false });
    }
    match transaction_token(tokens) {
        Err(error) => {
            return Err(CallFailure { error, give_back: false });
        },
        Ok(_) => {},
    }
    match publish(p) {
        Err(failure) => Err(failure),
        Ok(slot) => Ok((slot, entry)),
    }
}

/// Duplicates a handle, with rights that are part of its own: `derived` is the entry that the
/// table derives from it. The other arguments are those of [`install_one`].
pub fn duplicate(
    tokens: &mut IdSequence,
    room: bool,
    derived: Result<ProcessHandleEntry, TableError>,
    p: &PublishOutcomes,
) -> (r: Result<(u64, ProcessHandleEntry), CallFailure>)
    ensures
        final(tokens)@ == if room {
            ids::after(old(tokens)@)
        } else {
            old(tokens)@
        },
        r == if !room {
            Err::<(u64, ProcessHandleEntry), _>(
                CallFailure { error: SystemCallError::OutOfMemory, give_back: false },
            )
        } else if old(tokens)@ is None {
            Err(CallFailure { error: SystemCallError::ReachLimit, give_back: false })
        } else if derived is Err {
            Err(CallFailure { error: handle::reported(derived->Err_0), give_back: false })
        } else {
            match publish_failure(*p) {
                Some(failure) => Err(failure),
                None => Ok((p.slot->Ok_0, derived->Ok_0)),
            }
        },
{
    if !room {
        return Err(CallFailure { error: SystemCallError::OutOfMemory, give_back: false });
    }
    match transaction_token(tokens) {
        Err(error) => {
            return Err(CallFailure { error, give_back: false });
        },
        Ok(_) => {},
    }
    let entry = match derived {
        Err(error) => {
            return Err(CallFailure { error: handle::map_error(error), give_back: false });
        },
        Ok(entry) => entry,
    };
    match publish(p) {
        Err(failure) => Err(failure),
        Ok(slot) => Ok((slot, entry)),
    }
}

/// What closing an entry comes to is about the entry's object: one that is retired step by step is
/// retired, an endpoint is detached, and any other object is told which role is gone. No object is
/// dealt with in two ways.
pub proof fn closing_concerns_the_object(entry: ProcessHandleEntry, retires: bool)
    ensures
        match close_action(entry, retires) {
            CloseAction::Retire(object) => retires && object == entry.object,
            CloseAction::Detach(object) => !retires && entry.kind is TunnelEndpoint && object
                == entry.object,
            CloseAction::CloseHandle(object, role) => !retires && !(entry.kind is TunnelEndpoint)
                && object == entry.object && role == entry.role,
        },
{
}

/// Publishing a handle fails exactly if a step does, with the first that did; the slot is given
/// back exactly if it was reserved and the answer could not be written.
pub proof fn publishing_fails_at_the_first_fault(p: PublishOutcomes)
    ensures
        publish_failure(p) is None <==> p.slot is Ok && p.output is Ok && p.delivered is Ok,
        publish_failure(p) matches Some(failure) ==> {
            &&& failure.give_back <==> p.slot is Ok && p.output is Err
            &&& p.slot is Err ==> failure.error == handle::reported(p.slot->Err_0)
            &&& p.slot is Ok && p.output is Err ==> failure.error == p.output->Err_0
            &&& p.slot is Ok && p.output is Ok ==> failure.error == p.delivered->Err_0
        },
{
}

} // verus!
