//! Notifications: sets of bits that are raised and taken. Waiting only observes
//! whether any bit is raised.
use vstd::prelude::*;

use crate::error::SystemCallError;
use crate::handle;
use crate::handle::{ProcessHandleEntry, TableError};
use crate::notify_work::Reservation;
use crate::object;
use crate::object::{HandleRole, Koid, ObjectKind, ObjectWaitState, WaitView};
use crate::rights::Rights;
use crate::signals;
use crate::signals::ObjectSignals;

verus! {

/// A notification.
pub struct Notification {
    wait: ObjectWaitState,
    pending: u64,
    closed: bool,
}

/// A notification, as a value.
#[verifier::ext_equal]
pub struct NotificationView {
    pub wait: WaitView,
    /// The bits raised and not taken yet.
    pub pending: u64,
    pub closed: bool,
}

impl View for Notification {
    type V = NotificationView;

    closed spec fn view(&self) -> NotificationView {
        NotificationView { wait: self.wait@, pending: self.pending, closed: self.closed }
    }
}

impl NotificationView {
    /// The level that the state calls for: readable exactly if a bit is raised.
    pub open spec fn level(self) -> ObjectSignals {
        if self.pending != 0 {
            signals::READABLE
        } else {
            signals::NONE
        }
    }

    /// What every operation keeps: the level shown is the one that the state calls for,
    /// and the terminal one alone once the notification is closed. Only a spent counter
    /// of publications makes an open one show the terminal level.
    pub open spec fn wf(self) -> bool {
        &&& self.wait.wf()
        &&& self.closed ==> self.wait.signals == signals::CLOSED && self.pending == 0
        &&& !self.closed && self.wait.serial < u64::MAX ==> self.wait.signals == self.level()
        &&& self.wait.signals == signals::CLOSED || self.wait.signals == self.level()
    }

    /// The notification with `bits` raised.
    pub open spec fn raised(self, bits: u64) -> NotificationView {
        NotificationView {
            pending: self.pending | bits,
            wait: self.wait.updated(signals::NONE, signals::READABLE),
            ..self
        }
    }

    /// The notification with `bits` taken; the last bit takes the level along.
    pub open spec fn lowered(self, bits: u64) -> NotificationView {
        let rest = self.pending & !bits;
        NotificationView {
            pending: rest,
            wait: if rest == 0 {
                self.wait.updated(signals::READABLE, signals::NONE)
            } else {
                self.wait
            },
            ..self
        }
    }
}

/// A publication of the level keeps a notification well formed.
proof fn level_follows(wait: WaitView, clear: ObjectSignals, set: ObjectSignals)
    requires
        wait.wf(),
        wait.signals == signals::CLOSED || wait.signals == signals::READABLE || wait.signals
            == signals::NONE,
        (clear == signals::NONE && set == signals::READABLE) || (clear == signals::READABLE && (set
            == signals::NONE || set == signals::CLOSED)),
    ensures
        wait.updated(clear, set).wf(),
        wait.updated(clear, set).signals == set || wait.updated(clear, set).signals
            == signals::CLOSED,
        wait.signals != signals::CLOSED && wait.updated(clear, set).serial < u64::MAX
            ==> wait.updated(clear, set).signals == set,
        wait.signals == signals::CLOSED ==> wait.updated(clear, set) == wait,
        wait.signals == set ==> wait.updated(clear, set).serial == wait.serial,
{
    object::update_keeps_wf(wait, clear, set);
    signals::closed_is_last();
    assert((1u64 & !0u64) | 1u64 == 1 && (0u64 & !0u64) | 1u64 == 1 && (1u64 & !1u64) | 0u64 == 0
        && (0u64 & !1u64) | 0u64 == 0 && (1u64 & !1u64) | 0x100u64 == 0x100 && (0u64 & !1u64)
        | 0x100u64 == 0x100 && 1u64 & 0x100 == 0 && 0u64 & 0x100 == 0 && 1u64 & !1u64
        == 0 && 0u64 & !0u64 == 0) by (bit_vector);
    if wait.signals != signals::CLOSED {
        object::publication_is_exact(wait, clear, set);
    }
}

impl Notification {
    /// What every operation keeps.
    pub closed spec fn wf(&self) -> bool {
        self@.wf() && self.wait.wf()
    }

    pub proof fn wf_view(&self)
        requires
            self.wf(),
        ensures
            self@.wf(),
    {
    }

    /// A notification without raised bits.
    pub fn new() -> (r: Notification)
        ensures
            r.wf(),
            r@.pending == 0,
            !r@.closed,
            r@.wait == WaitView::fresh(signals::NONE),
    {
        let notification = Notification {
            wait: ObjectWaitState::new(signals::NONE),
            pending: 0,
            closed: false,
        };
        proof {
            notification.wait.wf_view();
        }
        notification
    }

    /// Raises `bits`.
    pub fn signal(&mut self, bits: u64) -> (r: Result<(), SystemCallError>)
        requires
            old(self).wf(),
        ensures
            final(self).wf(),
            r == if bits == 0 {
                Err::<(), _>(SystemCallError::IllegalArgument)
            } else if old(self)@.closed {
                Err(SystemCallError::ObjectClosed)
            } else {
                Ok(())
            },
            r is Err ==> final(self)@ == old(self)@,
            r is Ok ==> final(self)@ == old(self)@.raised(bits),
            r is Ok ==> final(self)@.pending != 0,
    {
        if bits == 0 {
            return Err(SystemCallError::IllegalArgument);
        }
        if self.closed {
            return Err(SystemCallError::ObjectClosed);
        }
        proof {
            level_follows(self.wait@, signals::NONE, signals::READABLE);
            let p = self.pending;
            assert(p | bits != 0) by (bit_vector)
                requires
                    bits != 0,
            ;
        }
        self.pending = self.pending | bits;
        self.wait.update(signals::NONE, signals::READABLE);
        Ok(())
    }

    /// Takes the raised bits among `mask`.
    pub fn take(&mut self, mask: u64) -> (r: Result<u64, SystemCallError>)
        requires
            old(self).wf(),
        ensures
            final(self).wf(),
            r == if mask == 0 {
                Err::<u64, _>(SystemCallError::IllegalArgument)
            } else if old(self)@.closed {
                Err(SystemCallError::ObjectClosed)
            } else if old(self)@.pending & mask == 0 {
                Err(SystemCallError::ObjectNotAvailable)
            } else {
                Ok(old(self)@.pending & mask)
            },
            r is Err ==> final(self)@ == old(self)@,
            r matches Ok(taken) ==> final(self)@ == old(self)@.lowered(taken),
    {
        if mask == 0 {
            return Err(SystemCallError::IllegalArgument);
        }
        if self.closed {
            return Err(SystemCallError::ObjectClosed);
        }
        let taken: u64 = self.pending & mask;
        if taken == 0 {
            return Err(SystemCallError::ObjectNotAvailable);
        }
        proof {
            level_follows(self.wait@, signals::READABLE, signals::NONE);
            let p = self.pending;
            assert(p != 0) by (bit_vector)
                requires
                    taken != 0,
                    taken == p & mask,
            ;
        }
        self.pending = self.pending & !taken;
        if self.pending == 0 {
            self.wait.update(signals::READABLE, signals::NONE);
        }
        Ok(taken)
    }

    /// Closes the notification when its owner goes: raised bits are dropped. Closing
    /// again changes nothing.
    pub fn close_owner(&mut self)
        requires
            old(self).wf(),
        ensures
            final(self).wf(),
            final(self)@ == if old(self)@.closed {
                old(self)@
            } else {
                NotificationView {
                    closed: true,
                    pending: 0,
                    wait: old(self)@.wait.updated(signals::READABLE, signals::CLOSED),
                }
            },
            final(self)@.wait.signals == signals::CLOSED,
    {
        if self.closed {
            return ;
        }
        proof {
            level_follows(self.wait@, signals::READABLE, signals::CLOSED);
        }
        self.closed = true;
        self.pending = 0;
        self.wait.update(signals::READABLE, signals::CLOSED);
    }

    /// The levels shown.
    pub fn signals(&self) -> (r: ObjectSignals)
        ensures
            r == self@.wait.signals,
    {
        self.wait.signals()
    }

    /// Its observers. Whatever is done with them, the notification stays in order as long
    /// as its levels are left alone.
    pub fn observers(&mut self) -> (r: &mut ObjectWaitState)
        requires
            old(self).wf(),
        ensures
            r.wf(),
            r@ == old(self)@.wait,
            final(self)@ == (NotificationView { wait: final(r)@, ..old(self)@ }),
            final(r).wf() && final(r)@.wf() && final(r)@.same_levels(old(self)@.wait)
                ==> final(self).wf(),
    {
        &mut self.wait
    }

    /// Queues the notification if its observers have something to learn.
    pub fn finish_waiters(&mut self) -> (r: Option<(Reservation, Koid)>)
        requires
            old(self).wf(),
        ensures
            final(self).wf(),
            r == old(self)@.wait.news(),
            final(self)@ == (NotificationView { wait: old(self)@.wait.queued(), ..old(self)@ }),
    {
        let pending = self.wait.take_notification();
        proof {
            self.wait.wf_view();
        }
        pending
    }
}

/// The two entries that creating a notification publishes: its owner's and its
/// signaler's.
pub fn create(object: Koid, room: bool, owner_rights: Rights, signaler_rights: Rights) -> (r:
    Result<(ProcessHandleEntry, ProcessHandleEntry), SystemCallError>)
    ensures
        r == if !room {
            Err::<(ProcessHandleEntry, ProcessHandleEntry), _>(SystemCallError::OutOfMemory)
        } else if !handle::may_enter(
            ObjectKind::Notification,
            HandleRole::NotificationOwner,
            owner_rights,
        ) || !handle::may_enter(
            ObjectKind::Notification,
            HandleRole::NotificationSignaler,
            signaler_rights,
        ) {
            Err(SystemCallError::RightsDenied)
        } else {
            Ok(
                (
                    ProcessHandleEntry {
                        object,
                        kind: ObjectKind::Notification,
                        role: HandleRole::NotificationOwner,
                        rights: owner_rights,
                    },
                    ProcessHandleEntry {
                        object,
                        kind: ObjectKind::Notification,
                        role: HandleRole::NotificationSignaler,
                        rights: signaler_rights,
                    },
                ),
            )
        },
{
    if !room {
        return Err(SystemCallError::OutOfMemory);
    }
    let owner = match handle::entry(
        object,
        ObjectKind::Notification,
        HandleRole::NotificationOwner,
        owner_rights,
    ) {
        Err(error) => {
            return Err(handle::map_error(error));
        },
        Ok(entry) => entry,
    };
    match handle::entry(
        object,
        ObjectKind::Notification,
        HandleRole::NotificationSignaler,
        signaler_rights,
    ) {
        Err(error) => Err(handle::map_error(error)),
        Ok(signaler) => Ok((owner, signaler)),
    }
}

/// Raises `bits` through a handle; `found` is what its lookup with the right to signal
/// gave.
pub fn signal(
    notification: &mut Notification,
    found: Result<ProcessHandleEntry, TableError>,
    bits: u64,
) -> (r: Result<(), SystemCallError>)
    requires
        old(notification).wf(),
    ensures
        final(notification).wf(),
        ({
            let resolved = handle::resolve_result(
                found,
                ObjectKind::Notification,
                HandleRole::NotificationSignaler,
            );
            r == if resolved is Err {
                Err::<(), _>(resolved->Err_0)
            } else if bits == 0 {
                Err(SystemCallError::IllegalArgument)
            } else if old(notification)@.closed {
                Err(SystemCallError::ObjectClosed)
            } else {
                Ok(())
            }
        }),
        final(notification)@ == if r is Ok {
            old(notification)@.raised(bits)
        } else {
            old(notification)@
        },
{
    match handle::resolve(found, ObjectKind::Notification, HandleRole::NotificationSignaler) {
        Err(error) => Err(error),
        Ok(_) => notification.signal(bits),
    }
}

/// Takes raised bits through a handle; `found` is what its lookup with the right to
/// read gave, and `writable` whether the result can be written. Nothing is taken
/// that cannot be delivered.
pub fn take(
    notification: &mut Notification,
    found: Result<ProcessHandleEntry, TableError>,
    writable: Result<(), SystemCallError>,
    mask: u64,
) -> (r: Result<u64, SystemCallError>)
    requires
        old(notification).wf(),
    ensures
        final(notification).wf(),
        ({
            let resolved = handle::resolve_result(
                found,
                ObjectKind::Notification,
                HandleRole::NotificationOwner,
            );
            r == if resolved is Err {
                Err::<u64, _>(resolved->Err_0)
            } else if writable is Err {
                Err(writable->Err_0)
            } else if mask == 0 {
                Err(SystemCallError::IllegalArgument)
            } else if old(notification)@.closed {
                Err(SystemCallError::ObjectClosed)
            } else if old(notification)@.pending & mask == 0 {
                Err(SystemCallError::ObjectNotAvailable)
            } else {
                Ok(old(notification)@.pending & mask)
            }
        }),
        r is Err ==> final(notification)@ == old(notification)@,
        r matches Ok(taken) ==> final(notification)@ == old(notification)@.lowered(taken),
{
    match handle::resolve(found, ObjectKind::Notification, HandleRole::NotificationOwner) {
        Err(error) => {
            return Err(error);
        },
        Ok(_) => {},
    }
    match writable {
        Err(error) => {
            return Err(error);
        },
        Ok(_) => {},
    }
    notification.take(mask)
}

/// Bits that are raised are shown at once and stay shown until the last of them is
/// taken: raising some and taking others leaves the level up exactly if a bit is left.
pub proof fn level_tells_of_bits(state: NotificationView, bits: u64, taken: u64)
    requires
        state.wf(),
        !state.closed,
        state.wait.serial < u64::MAX - 1,
        state.pending | bits != 0,
    ensures
        state.raised(bits).wf(),
        state.raised(bits).wait.signals == signals::READABLE,
        state.raised(bits).lowered(taken).wf(),
        state.raised(bits).lowered(taken).wait.signals == if (state.pending | bits) & !taken == 0 {
            signals::NONE
        } else {
            signals::READABLE
        },
{
    level_follows(state.wait, signals::NONE, signals::READABLE);
    level_follows(state.raised(bits).wait, signals::READABLE, signals::NONE);
    object::clearing_keeps_history(state.raised(bits).wait, signals::READABLE);
}

/// Taking splits the raised bits: what is taken and what stays have no bit in common
/// and are together what was raised.
pub proof fn taking_splits(pending: u64, mask: u64)
    ensures
        (pending & mask) & (pending & !(pending & mask)) == 0,
        (pending & mask) | (pending & !(pending & mask)) == pending,
{
    assert((pending & mask) & (pending & !(pending & mask)) == 0 && (pending & mask) | (pending & !(
    pending & mask)) == pending) by (bit_vector);
}

/// What is raised can be taken: raising `bits` and taking them at once gives at least
/// `bits` back, and leaves none of them.
pub proof fn raised_bits_are_taken(pending: u64, bits: u64)
    ensures
        (pending | bits) & bits == bits,
        ((pending | bits) & !((pending | bits) & bits)) & bits == 0,
{
    assert((pending | bits) & bits == bits && ((pending | bits) & !((pending | bits) & bits)) & bits
        == 0) by (bit_vector);
}

/// Raising and taking concern the bits named: raised bits are up afterwards and taken bits are
/// down, and every other bit is as it was. An open notification stays open.
pub proof fn bits_not_named_stay(state: NotificationView, bits: u64)
    ensures
        ({
            let after = state.raised(bits);
            &&& after.pending & bits == bits
            &&& after.pending & !bits == state.pending & !bits
            &&& after.closed == state.closed
        }),
        ({
            let after = state.lowered(bits);
            &&& after.pending & bits == 0
            &&& after.pending & !bits == state.pending & !bits
            &&& after.closed == state.closed
            &&& after.pending != 0 ==> after.wait == state.wait
        }),
{
    let p = state.pending;
    assert((p | bits) & bits == bits && (p | bits) & !bits == p & !bits && (p & !bits) & bits == 0
        && (p & !bits) & !bits == p & !bits) by (bit_vector);
}

} // verus!
