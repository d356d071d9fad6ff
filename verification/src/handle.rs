//! Handles: what an entry of a handle table says, what may be entered, and how
//! failures of the table are reported.
use vstd::prelude::*;

use crate::error::SystemCallError;
use crate::object::{HandleRole, Koid, ObjectKind};
use crate::rights;
use crate::rights::Rights;
use crate::signals;
use crate::signals::ObjectSignals;

verus! {

/// Value by which a process names an entry of its table.
pub type Handle = u64;

/// The number that no handle has.
pub const INVALID: u64 = 0;

/// Why the handle table refused.
#[derive(Clone, Copy, Debug, PartialEq, Eq, Structural)]
pub enum TableError {
    InvalidHandle,
    StaleHandle,
    ObjectBusy,
    RightsDenied,
    DuplicateHandle,
    ReachLimit,
    BadReservation,
    AllocationFailed,
}

/// How a table failure is reported.
pub open spec fn reported(error: TableError) -> SystemCallError {
    match error {
        TableError::InvalidHandle => SystemCallError::IllegalArgument,
        TableError::StaleHandle => SystemCallError::StaleHandle,
        TableError::ObjectBusy => SystemCallError::ObjectBusy,
        TableError::RightsDenied => SystemCallError::RightsDenied,
        TableError::DuplicateHandle => SystemCallError::IllegalArgument,
        TableError::ReachLimit => SystemCallError::ReachLimit,
        TableError::BadReservation => SystemCallError::InternalError,
        TableError::AllocationFailed => SystemCallError::OutOfMemory,
    }
}

/// How a table failure is reported.
pub fn map_error(error: TableError) -> (r: SystemCallError)
    ensures
        r == reported(error),
{
    match error {
        TableError::InvalidHandle => SystemCallError::IllegalArgument,
        TableError::StaleHandle => SystemCallError::StaleHandle,
        TableError::ObjectBusy => SystemCallError::ObjectBusy,
        TableError::RightsDenied => SystemCallError::RightsDenied,
        TableError::DuplicateHandle => SystemCallError::IllegalArgument,
        TableError::ReachLimit => SystemCallError::ReachLimit,
        TableError::BadReservation => SystemCallError::InternalError,
        TableError::AllocationFailed => SystemCallError::OutOfMemory,
    }
}

/// What one entry of a handle table says.
#[derive(Clone, Copy, Debug, PartialEq, Eq, Structural)]
pub struct ProcessHandleEntry {
    pub object: Koid,
    pub kind: ObjectKind,
    pub role: HandleRole,
    pub rights: Rights,
}

/// A call that was to publish handles and failed.
#[derive(Clone, Copy, Debug, PartialEq, Eq, Structural)]
pub struct CallFailure {
    pub error: SystemCallError,
    /// Slots in the caller's handle table are to be given back.
    pub give_back: bool,
}

/// The most that a handle with this role may carry on an object of this kind;
/// `None` if the object does not know the role.
pub open spec fn max_rights(kind: ObjectKind, role: HandleRole) -> Option<Rights> {
    match (kind, role) {
        (ObjectKind::Delivery, HandleRole::Delivery) => Some(rights::DELIVERY),
        (ObjectKind::Job, HandleRole::JobControl) => Some(rights::JOB_CONTROL),
        (ObjectKind::Lifetime, HandleRole::LifetimeObserver) => Some(rights::LIFETIME_OBSERVER),
        (ObjectKind::Mailbox, HandleRole::MailboxOwner) => Some(rights::MAILBOX_OWNER),
        (ObjectKind::MailboxSender, HandleRole::MailboxSender) => Some(rights::MAILBOX_SENDER),
        (ObjectKind::MailboxSender, HandleRole::MailboxSenderOnce) => Some(
            rights::MAILBOX_SENDER_ONCE,
        ),
        (ObjectKind::MemoryObject, HandleRole::MemoryObject) => Some(rights::MEMORY_OBJECT),
        (ObjectKind::MemoryPool, HandleRole::MemoryPool) => Some(rights::MEMORY_POOL),
        (ObjectKind::Notification, HandleRole::NotificationOwner) => Some(
            rights::NOTIFICATION_OWNER,
        ),
        (ObjectKind::Notification, HandleRole::NotificationSignaler) => Some(
            rights::NOTIFICATION_SIGNALER,
        ),
        (ObjectKind::ProcessBuilder, HandleRole::ProcessBuilder) => Some(rights::PROCESS_BUILDER),
        (ObjectKind::ProcessControl, HandleRole::ProcessControl) => Some(rights::PROCESS_CONTROL),
        (ObjectKind::SystemReset, HandleRole::SystemResetControl) => Some(
            rights::SYSTEM_RESET_CONTROL,
        ),
        (ObjectKind::ThreadControl, HandleRole::ThreadControl) => Some(rights::THREAD_CONTROL),
        (ObjectKind::TunnelEndpoint, HandleRole::TunnelEndpoint) => Some(rights::TUNNEL_ENDPOINT),
        (ObjectKind::TunnelInvitation, HandleRole::TunnelInvitation) => Some(
            rights::TUNNEL_INVITATION,
        ),
        _ => None,
    }
}

/// The most that a handle with this role may carry on an object of this kind.
pub fn allowed_rights(kind: ObjectKind, role: HandleRole) -> (r: Option<Rights>)
    ensures
        r == max_rights(kind, role),
{
    match (kind, role) {
        (ObjectKind::Delivery, HandleRole::Delivery) => Some(rights::DELIVERY),
        (ObjectKind::Job, HandleRole::JobControl) => Some(rights::JOB_CONTROL),
        (ObjectKind::Lifetime, HandleRole::LifetimeObserver) => Some(rights::LIFETIME_OBSERVER),
        (ObjectKind::Mailbox, HandleRole::MailboxOwner) => Some(rights::MAILBOX_OWNER),
        (ObjectKind::MailboxSender, HandleRole::MailboxSender) => Some(rights::MAILBOX_SENDER),
        (ObjectKind::MailboxSender, HandleRole::MailboxSenderOnce) => Some(
            rights::MAILBOX_SENDER_ONCE,
        ),
        (ObjectKind::MemoryObject, HandleRole::MemoryObject) => Some(rights::MEMORY_OBJECT),
        (ObjectKind::MemoryPool, HandleRole::MemoryPool) => Some(rights::MEMORY_POOL),
        (ObjectKind::Notification, HandleRole::NotificationOwner) => Some(
            rights::NOTIFICATION_OWNER,
        ),
        (ObjectKind::Notification, HandleRole::NotificationSignaler) => Some(
            rights::NOTIFICATION_SIGNALER,
        ),
        (ObjectKind::ProcessBuilder, HandleRole::ProcessBuilder) => Some(rights::PROCESS_BUILDER),
        (ObjectKind::ProcessControl, HandleRole::ProcessControl) => Some(rights::PROCESS_CONTROL),
        (ObjectKind::SystemReset, HandleRole::SystemResetControl) => Some(
            rights::SYSTEM_RESET_CONTROL,
        ),
        (ObjectKind::ThreadControl, HandleRole::ThreadControl) => Some(rights::THREAD_CONTROL),
        (ObjectKind::TunnelEndpoint, HandleRole::TunnelEndpoint) => Some(rights::TUNNEL_ENDPOINT),
        (ObjectKind::TunnelInvitation, HandleRole::TunnelInvitation) => Some(
            rights::TUNNEL_INVITATION,
        ),
        _ => None,
    }
}

/// The levels that a holder of this role may wait for; `None` if it may not wait.
pub open spec fn max_signals(kind: ObjectKind, role: HandleRole) -> Option<ObjectSignals> {
    match (kind, role) {
        (ObjectKind::Job, HandleRole::JobControl) => Some(signals::CLOSED),
        (ObjectKind::Lifetime, HandleRole::LifetimeObserver) => Some(signals::CLOSED),
        (ObjectKind::Mailbox, HandleRole::MailboxOwner) => Some(
            signals::READABLE | signals::CLOSED,
        ),
        (ObjectKind::MailboxSender, HandleRole::MailboxSender) => Some(
            signals::WRITABLE | signals::CLOSED,
        ),
        (ObjectKind::MailboxSender, HandleRole::MailboxSenderOnce) => Some(
            signals::WRITABLE | signals::CLOSED,
        ),
        (ObjectKind::MemoryObject, HandleRole::MemoryObject) => Some(signals::EXECUTABLE),
        (ObjectKind::Notification, HandleRole::NotificationOwner) => Some(
            signals::READABLE | signals::CLOSED,
        ),
        (ObjectKind::Notification, HandleRole::NotificationSignaler) => Some(signals::CLOSED),
        (ObjectKind::ProcessBuilder, HandleRole::ProcessBuilder) => Some(signals::CLOSED),
        (ObjectKind::ProcessControl, HandleRole::ProcessControl) => Some(
            signals::REAPABLE | signals::CLOSED,
        ),
        (ObjectKind::ThreadControl, HandleRole::ThreadControl) => Some(
            signals::DONE | signals::CLOSED,
        ),
        (ObjectKind::TunnelEndpoint, HandleRole::TunnelEndpoint) => Some(
            signals::DATA | signals::PEER_CLOSED | signals::CLOSED,
        ),
        _ => None,
    }
}

/// The levels that a holder of this role may wait for.
pub fn allowed_signals(kind: ObjectKind, role: HandleRole) -> (r: Option<ObjectSignals>)
    ensures
        r == max_signals(kind, role),
{
    match (kind, role) {
        (ObjectKind::Job, HandleRole::JobControl) => Some(signals::CLOSED),
        (ObjectKind::Lifetime, HandleRole::LifetimeObserver) => Some(signals::CLOSED),
        (ObjectKind::Mailbox, HandleRole::MailboxOwner) => Some(
            signals::READABLE | signals::CLOSED,
        ),
        (ObjectKind::MailboxSender, HandleRole::MailboxSender) => Some(
            signals::WRITABLE | signals::CLOSED,
        ),
        (ObjectKind::MailboxSender, HandleRole::MailboxSenderOnce) => Some(
            signals::WRITABLE | signals::CLOSED,
        ),
        (ObjectKind::MemoryObject, HandleRole::MemoryObject) => Some(signals::EXECUTABLE),
        (ObjectKind::Notification, HandleRole::NotificationOwner) => Some(
            signals::READABLE | signals::CLOSED,
        ),
        (ObjectKind::Notification, HandleRole::NotificationSignaler) => Some(signals::CLOSED),
        (ObjectKind::ProcessBuilder, HandleRole::ProcessBuilder) => Some(signals::CLOSED),
        (ObjectKind::ProcessControl, HandleRole::ProcessControl) => Some(
            signals::REAPABLE | signals::CLOSED,
        ),
        (ObjectKind::ThreadControl, HandleRole::ThreadControl) => Some(
            signals::DONE | signals::CLOSED,
        ),
        (ObjectKind::TunnelEndpoint, HandleRole::TunnelEndpoint) => Some(
            signals::DATA | signals::PEER_CLOSED | signals::CLOSED,
        ),
        _ => None,
    }
}

/// An entry may be made: its rights all have a meaning, and the object grants all
/// of them to its role.
pub open spec fn may_enter(kind: ObjectKind, role: HandleRole, rights: Rights) -> bool {
    rights::known(rights) && (max_rights(kind, role) matches Some(most) && rights::subset(
        rights,
        most,
    ))
}

/// What comes of making an entry.
pub open spec fn entry_result(
    object: Koid,
    kind: ObjectKind,
    role: HandleRole,
    rights: Rights,
) -> Result<ProcessHandleEntry, TableError> {
    if may_enter(kind, role, rights) {
        Ok(ProcessHandleEntry { object, kind, role, rights })
    } else {
        Err(TableError::RightsDenied)
    }
}

/// Makes an entry, if the object grants these rights to the role.
pub fn entry(object: Koid, kind: ObjectKind, role: HandleRole, rights: Rights) -> (r: Result<
    ProcessHandleEntry,
    TableError,
>)
    ensures
        r == entry_result(object, kind, role, rights),
{
    if !rights::is_known(rights) {
        return Err(TableError::RightsDenied);
    }
    match allowed_rights(kind, role) {
        Some(most) => if rights::is_subset_of(rights, most) {
            Ok(ProcessHandleEntry { object, kind, role, rights })
        } else {
            Err(TableError::RightsDenied)
        },
        None => Err(TableError::RightsDenied),
    }
}

/// What a holder can learn of a handle.
#[derive(Clone, Copy, Debug, PartialEq, Eq, Structural)]
pub struct HandleDescription {
    pub object_id: Koid,
    pub related_object_id: Koid,
    pub kind: ObjectKind,
    pub role: HandleRole,
    pub rights: Rights,
    pub badge: u64,
}

/// Describes the entry that a lookup without a demand on rights found.
pub fn query(found: Result<ProcessHandleEntry, TableError>, related: Koid, badge: u64) -> (r:
    Result<HandleDescription, SystemCallError>)
    ensures
        r == match found {
            Ok(entry) => Ok::<_, SystemCallError>(
                HandleDescription {
                    object_id: entry.object,
                    related_object_id: related,
                    kind: entry.kind,
                    role: entry.role,
                    rights: entry.rights,
                    badge,
                },
            ),
            Err(error) => Err(reported(error)),
        },
{
    match found {
        Ok(entry) => Ok(
            HandleDescription {
                object_id: entry.object,
                related_object_id: related,
                kind: entry.kind,
                role: entry.role,
                rights: entry.rights,
                badge,
            },
        ),
        Err(error) => Err(map_error(error)),
    }
}

/// What comes of asking that a lookup found an object of this kind in this role.
pub open spec fn resolve_result(
    found: Result<ProcessHandleEntry, TableError>,
    kind: ObjectKind,
    role: HandleRole,
) -> Result<ProcessHandleEntry, SystemCallError> {
    match found {
        Err(error) => Err(reported(error)),
        Ok(entry) => if entry.role == role && entry.kind == kind {
            Ok(entry)
        } else {
            Err(SystemCallError::WrongObjectType)
        },
    }
}

/// Asks that a lookup found an object of this kind in this role.
pub fn resolve(
    found: Result<ProcessHandleEntry, TableError>,
    kind: ObjectKind,
    role: HandleRole,
) -> (r: Result<ProcessHandleEntry, SystemCallError>)
    ensures
        r == resolve_result(found, kind, role),
{
    match found {
        Err(error) => Err(map_error(error)),
        Ok(entry) => if entry.role == role && entry.kind == kind {
            Ok(entry)
        } else {
            Err(SystemCallError::WrongObjectType)
        },
    }
}

/// An entry that was made carries no right that its object does not grant to its
/// role.
pub proof fn entry_is_within_policy(
    object: Koid,
    kind: ObjectKind,
    role: HandleRole,
    asked: Rights,
)
    requires
        entry_result(object, kind, role, asked) is Ok,
    ensures
        max_rights(kind, role) is Some,
        rights::subset(asked, max_rights(kind, role)->0),
        rights::known(asked),
{
}

/// An entry may carry all that the object grants to the role.
pub proof fn all_rights_may_enter(object: Koid, kind: ObjectKind, role: HandleRole)
    requires
        max_rights(kind, role) is Some,
    ensures
        entry_result(object, kind, role, max_rights(kind, role)->0) is Ok,
{
    let most = max_rights(kind, role)->0;
    assert(most & !most == 0) by (bit_vector);
    assert(rights::known(rights::DELIVERY) && rights::known(rights::JOB_CONTROL) && rights::known(
        rights::LIFETIME_OBSERVER,
    ) && rights::known(rights::MAILBOX_OWNER) && rights::known(rights::MAILBOX_SENDER)
        && rights::known(rights::MAILBOX_SENDER_ONCE) && rights::known(rights::MEMORY_OBJECT)
        && rights::known(rights::MEMORY_POOL) && rights::known(rights::NOTIFICATION_OWNER)
        && rights::known(rights::NOTIFICATION_SIGNALER) && rights::known(rights::PROCESS_BUILDER)
        && rights::known(rights::PROCESS_CONTROL) && rights::known(rights::SYSTEM_RESET_CONTROL)
        && rights::known(rights::THREAD_CONTROL) && rights::known(rights::TUNNEL_ENDPOINT)
        && rights::known(rights::TUNNEL_INVITATION)) by (bit_vector);
}

/// Neither a tunnel endpoint nor a mailbox's owner handle can travel in a message.
pub proof fn owners_do_not_travel(kind: ObjectKind, role: HandleRole)
    requires
        kind == ObjectKind::TunnelEndpoint || kind == ObjectKind::Mailbox,
        max_rights(kind, role) is Some,
    ensures
        max_rights(kind, role)->0 & rights::TRANSIT == 0,
{
    assert((0x20u64 | 0x10 | 0x80) & 0x200 == 0 && (0x1u64 | 0x20 | 0x80 | 0x400) & 0x200 == 0)
        by (bit_vector);
}

/// The rights, one by one: who may read, write, execute, map, signal, wait, create, manage,
/// duplicate, send on and hand down. A role that an object does not know may nothing.
pub proof fn every_right_has_its_roles(kind: ObjectKind, role: HandleRole)
    requires
        max_rights(kind, role) is Some,
    ensures
        ({
            let most = max_rights(kind, role)->0;
            &&& most & 0x1 != 0 <==> (role is JobControl || role is MailboxOwner
                || role is MemoryObject || role is MemoryPool || role is NotificationOwner
                || role is ProcessControl)
            &&& most & 0x2 != 0 <==> (role is MailboxSender || role is MailboxSenderOnce
                || role is MemoryObject || role is ProcessBuilder)
            &&& most & 0x4 != 0 <==> (role is MemoryObject)
            &&& most & 0x8 != 0 <==> (role is MemoryObject || role is ProcessBuilder
                || role is TunnelInvitation)
            &&& most & 0x10 != 0 <==> (role is NotificationSignaler || role is TunnelEndpoint)
            &&& most & 0x20 == 0 <==> (role is Delivery || role is MemoryPool
                || role is ProcessBuilder || role is SystemResetControl || role is TunnelInvitation)
            &&& most & 0x40 != 0 <==> (role is JobControl || role is MemoryPool)
            &&& most & 0x80 != 0 <==> (role is JobControl || role is MailboxOwner
                || role is MemoryObject || role is NotificationOwner || role is ProcessBuilder
                || role is ProcessControl || role is SystemResetControl || role is TunnelEndpoint)
            &&& most & 0x100 == 0 <==> (role is Delivery || role is MailboxOwner
                || role is MailboxSenderOnce || role is NotificationOwner
                || role is ProcessBuilder || role is TunnelEndpoint || role is TunnelInvitation)
            &&& most & 0x200 == 0 <==> (role is MailboxOwner || role is NotificationOwner
                || role is TunnelEndpoint)
            &&& most & 0x400 == 0 <==> (role is TunnelEndpoint)
            &&& most & !0x7ffu64 == 0
        }),
{
    assert({
        &&& rights::DELIVERY & 0x1 == 0 && rights::DELIVERY & 0x2 == 0
            && rights::DELIVERY & 0x4 == 0 && rights::DELIVERY & 0x8 == 0
            && rights::DELIVERY & 0x10 == 0 && rights::DELIVERY & 0x20 == 0
            && rights::DELIVERY & 0x40 == 0 && rights::DELIVERY & 0x80 == 0
            && rights::DELIVERY & 0x100 == 0 && rights::DELIVERY & 0x200 != 0
            && rights::DELIVERY & 0x400 != 0 && rights::DELIVERY & !0x7ffu64 == 0
        &&& rights::JOB_CONTROL & 0x1 != 0 && rights::JOB_CONTROL & 0x2 == 0
            && rights::JOB_CONTROL & 0x4 == 0 && rights::JOB_CONTROL & 0x8 == 0
            && rights::JOB_CONTROL & 0x10 == 0 && rights::JOB_CONTROL & 0x20 != 0
            && rights::JOB_CONTROL & 0x40 != 0 && rights::JOB_CONTROL & 0x80 != 0
            && rights::JOB_CONTROL & 0x100 != 0 && rights::JOB_CONTROL & 0x200 != 0
            && rights::JOB_CONTROL & 0x400 != 0 && rights::JOB_CONTROL & !0x7ffu64 == 0
        &&& rights::LIFETIME_OBSERVER & 0x1 == 0 && rights::LIFETIME_OBSERVER & 0x2 == 0
            && rights::LIFETIME_OBSERVER & 0x4 == 0 && rights::LIFETIME_OBSERVER & 0x8 == 0
            && rights::LIFETIME_OBSERVER & 0x10 == 0 && rights::LIFETIME_OBSERVER & 0x20 != 0
            && rights::LIFETIME_OBSERVER & 0x40 == 0 && rights::LIFETIME_OBSERVER & 0x80 == 0
            && rights::LIFETIME_OBSERVER & 0x100 != 0
            && rights::LIFETIME_OBSERVER & 0x200 != 0
            && rights::LIFETIME_OBSERVER & 0x400 != 0 && rights::LIFETIME_OBSERVER & !0x7ffu64 == 0
        &&& rights::MAILBOX_OWNER & 0x1 != 0 && rights::MAILBOX_OWNER & 0x2 == 0
            && rights::MAILBOX_OWNER & 0x4 == 0 && rights::MAILBOX_OWNER & 0x8 == 0
            && rights::MAILBOX_OWNER & 0x10 == 0 && rights::MAILBOX_OWNER & 0x20 != 0
            && rights::MAILBOX_OWNER & 0x40 == 0 && rights::MAILBOX_OWNER & 0x80 != 0
            && rights::MAILBOX_OWNER & 0x100 == 0 && rights::MAILBOX_OWNER & 0x200 == 0
            && rights::MAILBOX_OWNER & 0x400 != 0 && rights::MAILBOX_OWNER & !0x7ffu64 == 0
        &&& rights::MAILBOX_SENDER & 0x1 == 0 && rights::MAILBOX_SENDER & 0x2 != 0
            && rights::MAILBOX_SENDER & 0x4 == 0 && rights::MAILBOX_SENDER & 0x8 == 0
            && rights::MAILBOX_SENDER & 0x10 == 0 && rights::MAILBOX_SENDER & 0x20 != 0
            && rights::MAILBOX_SENDER & 0x40 == 0 && rights::MAILBOX_SENDER & 0x80 == 0
            && rights::MAILBOX_SENDER & 0x100 != 0 && rights::MAILBOX_SENDER & 0x200 != 0
            && rights::MAILBOX_SENDER & 0x400 != 0 && rights::MAILBOX_SENDER & !0x7ffu64 == 0
        &&& rights::MAILBOX_SENDER_ONCE & 0x1 == 0 && rights::MAILBOX_SENDER_ONCE & 0x2 != 0
            && rights::MAILBOX_SENDER_ONCE & 0x4 == 0
            && rights::MAILBOX_SENDER_ONCE & 0x8 == 0
            && rights::MAILBOX_SENDER_ONCE & 0x10 == 0
            && rights::MAILBOX_SENDER_ONCE & 0x20 != 0
            && rights::MAILBOX_SENDER_ONCE & 0x40 == 0
            && rights::MAILBOX_SENDER_ONCE & 0x80 == 0
            && rights::MAILBOX_SENDER_ONCE & 0x100 == 0
            && rights::MAILBOX_SENDER_ONCE & 0x200 != 0
            && rights::MAILBOX_SENDER_ONCE & 0x400 != 0
            && rights::MAILBOX_SENDER_ONCE & !0x7ffu64 == 0
        &&& rights::MEMORY_OBJECT & 0x1 != 0 && rights::MEMORY_OBJECT & 0x2 != 0
            && rights::MEMORY_OBJECT & 0x4 != 0 && rights::MEMORY_OBJECT & 0x8 != 0
            && rights::MEMORY_OBJECT & 0x10 == 0 && rights::MEMORY_OBJECT & 0x20 != 0
            && rights::MEMORY_OBJECT & 0x40 == 0 && rights::MEMORY_OBJECT & 0x80 != 0
            && rights::MEMORY_OBJECT & 0x100 != 0 && rights::MEMORY_OBJECT & 0x200 != 0
            && rights::MEMORY_OBJECT & 0x400 != 0 && rights::MEMORY_OBJECT & !0x7ffu64 == 0
        &&& rights::MEMORY_POOL & 0x1 != 0 && rights::MEMORY_POOL & 0x2 == 0
            && rights::MEMORY_POOL & 0x4 == 0 && rights::MEMORY_POOL & 0x8 == 0
            && rights::MEMORY_POOL & 0x10 == 0 && rights::MEMORY_POOL & 0x20 == 0
            && rights::MEMORY_POOL & 0x40 != 0 && rights::MEMORY_POOL & 0x80 == 0
            && rights::MEMORY_POOL & 0x100 != 0 && rights::MEMORY_POOL & 0x200 != 0
            && rights::MEMORY_POOL & 0x400 != 0 && rights::MEMORY_POOL & !0x7ffu64 == 0
        &&& rights::NOTIFICATION_OWNER & 0x1 != 0 && rights::NOTIFICATION_OWNER & 0x2 == 0
            && rights::NOTIFICATION_OWNER & 0x4 == 0 && rights::NOTIFICATION_OWNER & 0x8 == 0
            && rights::NOTIFICATION_OWNER & 0x10 == 0
            && rights::NOTIFICATION_OWNER & 0x20 != 0
            && rights::NOTIFICATION_OWNER & 0x40 == 0
            && rights::NOTIFICATION_OWNER & 0x80 != 0
            && rights::NOTIFICATION_OWNER & 0x100 == 0
            && rights::NOTIFICATION_OWNER & 0x200 == 0
            && rights::NOTIFICATION_OWNER & 0x400 != 0
            && rights::NOTIFICATION_OWNER & !0x7ffu64 == 0
        &&& rights::NOTIFICATION_SIGNALER & 0x1 == 0
            && rights::NOTIFICATION_SIGNALER & 0x2 == 0
            && rights::NOTIFICATION_SIGNALER & 0x4 == 0
            && rights::NOTIFICATION_SIGNALER & 0x8 == 0
            && rights::NOTIFICATION_SIGNALER & 0x10 != 0
            && rights::NOTIFICATION_SIGNALER & 0x20 != 0
            && rights::NOTIFICATION_SIGNALER & 0x40 == 0
            && rights::NOTIFICATION_SIGNALER & 0x80 == 0
            && rights::NOTIFICATION_SIGNALER & 0x100 != 0
            && rights::NOTIFICATION_SIGNALER & 0x200 != 0
            && rights::NOTIFICATION_SIGNALER & 0x400 != 0
            && rights::NOTIFICATION_SIGNALER & !0x7ffu64 == 0
        &&& rights::PROCESS_BUILDER & 0x1 == 0 && rights::PROCESS_BUILDER & 0x2 != 0
            && rights::PROCESS_BUILDER & 0x4 == 0 && rights::PROCESS_BUILDER & 0x8 != 0
            && rights::PROCESS_BUILDER & 0x10 == 0 && rights::PROCESS_BUILDER & 0x20 == 0
            && rights::PROCESS_BUILDER & 0x40 == 0 && rights::PROCESS_BUILDER & 0x80 != 0
            && rights::PROCESS_BUILDER & 0x100 == 0 && rights::PROCESS_BUILDER & 0x200 != 0
            && rights::PROCESS_BUILDER & 0x400 != 0 && rights::PROCESS_BUILDER & !0x7ffu64 == 0
        &&& rights::PROCESS_CONTROL & 0x1 != 0 && rights::PROCESS_CONTROL & 0x2 == 0
            && rights::PROCESS_CONTROL & 0x4 == 0 && rights::PROCESS_CONTROL & 0x8 == 0
            && rights::PROCESS_CONTROL & 0x10 == 0 && rights::PROCESS_CONTROL & 0x20 != 0
            && rights::PROCESS_CONTROL & 0x40 == 0 && rights::PROCESS_CONTROL & 0x80 != 0
            && rights::PROCESS_CONTROL & 0x100 != 0 && rights::PROCESS_CONTROL & 0x200 != 0
            && rights::PROCESS_CONTROL & 0x400 != 0 && rights::PROCESS_CONTROL & !0x7ffu64 == 0
        &&& rights::SYSTEM_RESET_CONTROL & 0x1 == 0 && rights::SYSTEM_RESET_CONTROL & 0x2 == 0
            && rights::SYSTEM_RESET_CONTROL & 0x4 == 0
            && rights::SYSTEM_RESET_CONTROL & 0x8 == 0
            && rights::SYSTEM_RESET_CONTROL & 0x10 == 0
            && rights::SYSTEM_RESET_CONTROL & 0x20 == 0
            && rights::SYSTEM_RESET_CONTROL & 0x40 == 0
            && rights::SYSTEM_RESET_CONTROL & 0x80 != 0
            && rights::SYSTEM_RESET_CONTROL & 0x100 != 0
            && rights::SYSTEM_RESET_CONTROL & 0x200 != 0
            && rights::SYSTEM_RESET_CONTROL & 0x400 != 0
            && rights::SYSTEM_RESET_CONTROL & !0x7ffu64 == 0
        &&& rights::THREAD_CONTROL & 0x1 == 0 && rights::THREAD_CONTROL & 0x2 == 0
            && rights::THREAD_CONTROL & 0x4 == 0 && rights::THREAD_CONTROL & 0x8 == 0
            && rights::THREAD_CONTROL & 0x10 == 0 && rights::THREAD_CONTROL & 0x20 != 0
            && rights::THREAD_CONTROL & 0x40 == 0 && rights::THREAD_CONTROL & 0x80 == 0
            && rights::THREAD_CONTROL & 0x100 != 0 && rights::THREAD_CONTROL & 0x200 != 0
            && rights::THREAD_CONTROL & 0x400 != 0 && rights::THREAD_CONTROL & !0x7ffu64 == 0
        &&& rights::TUNNEL_ENDPOINT & 0x1 == 0 && rights::TUNNEL_ENDPOINT & 0x2 == 0
            && rights::TUNNEL_ENDPOINT & 0x4 == 0 && rights::TUNNEL_ENDPOINT & 0x8 == 0
            && rights::TUNNEL_ENDPOINT & 0x10 != 0 && rights::TUNNEL_ENDPOINT & 0x20 != 0
            && rights::TUNNEL_ENDPOINT & 0x40 == 0 && rights::TUNNEL_ENDPOINT & 0x80 != 0
            && rights::TUNNEL_ENDPOINT & 0x100 == 0 && rights::TUNNEL_ENDPOINT & 0x200 == 0
            && rights::TUNNEL_ENDPOINT & 0x400 == 0 && rights::TUNNEL_ENDPOINT & !0x7ffu64 == 0
        &&& rights::TUNNEL_INVITATION & 0x1 == 0 && rights::TUNNEL_INVITATION & 0x2 == 0
            && rights::TUNNEL_INVITATION & 0x4 == 0 && rights::TUNNEL_INVITATION & 0x8 != 0
            && rights::TUNNEL_INVITATION & 0x10 == 0 && rights::TUNNEL_INVITATION & 0x20 == 0
            && rights::TUNNEL_INVITATION & 0x40 == 0 && rights::TUNNEL_INVITATION & 0x80 == 0
            && rights::TUNNEL_INVITATION & 0x100 == 0
            && rights::TUNNEL_INVITATION & 0x200 != 0
            && rights::TUNNEL_INVITATION & 0x400 != 0 && rights::TUNNEL_INVITATION & !0x7ffu64 == 0
    }) by (bit_vector);
}

/// A role belongs to one kind of object: an object grants rights to its own roles, and to no
/// others.
pub proof fn roles_belong_to_their_kind(kind: ObjectKind, role: HandleRole)
    ensures
        max_rights(kind, role) is Some <==> match role {
            HandleRole::Delivery => kind is Delivery,
            HandleRole::JobControl => kind is Job,
            HandleRole::LifetimeObserver => kind is Lifetime,
            HandleRole::MailboxOwner => kind is Mailbox,
            HandleRole::MailboxSender => kind is MailboxSender,
            HandleRole::MailboxSenderOnce => kind is MailboxSender,
            HandleRole::MemoryObject => kind is MemoryObject,
            HandleRole::MemoryPool => kind is MemoryPool,
            HandleRole::NotificationOwner => kind is Notification,
            HandleRole::NotificationSignaler => kind is Notification,
            HandleRole::ProcessBuilder => kind is ProcessBuilder,
            HandleRole::ProcessControl => kind is ProcessControl,
            HandleRole::SystemResetControl => kind is SystemReset,
            HandleRole::ThreadControl => kind is ThreadControl,
            HandleRole::TunnelEndpoint => kind is TunnelEndpoint,
            HandleRole::TunnelInvitation => kind is TunnelInvitation,
        },
        max_signals(kind, role) is Some ==> max_rights(kind, role) is Some,
{
}

/// The levels, one by one: who may wait for each of them. Something to wait for have the roles
/// with the right to wait, and the one that builds a process, whose levels no handle can wait for.
pub proof fn every_level_has_its_waiters(kind: ObjectKind, role: HandleRole)
    ensures
        max_signals(kind, role) matches Some(levels) ==> {
            &&& levels & 0x1 != 0 <==> (role is MailboxOwner || role is NotificationOwner)
            &&& levels & 0x2 != 0 <==> (role is MailboxSender || role is MailboxSenderOnce)
            &&& levels & 0x4 != 0 <==> (role is TunnelEndpoint)
            &&& levels & 0x8 == 0
            &&& levels & 0x10 != 0 <==> (role is TunnelEndpoint)
            &&& levels & 0x20 != 0 <==> (role is ThreadControl)
            &&& levels & 0x40 != 0 <==> (role is ProcessControl)
            &&& levels & 0x80 != 0 <==> (role is MemoryObject)
            &&& levels & 0x100 == 0 <==> (role is MemoryObject)
            &&& levels & !0x1ffu64 == 0
        },
        max_signals(kind, role) is Some <==> (max_rights(kind, role) matches Some(most) && (most
            & 0x20 != 0 || role is ProcessBuilder)),
{
    if max_rights(kind, role) is Some {
        every_right_has_its_roles(kind, role);
    }
    assert({
        &&& (signals::CLOSED) & 0x1 == 0 && (signals::CLOSED) & 0x2 == 0
            && (signals::CLOSED) & 0x4 == 0 && (signals::CLOSED) & 0x8 == 0
            && (signals::CLOSED) & 0x10 == 0 && (signals::CLOSED) & 0x20 == 0
            && (signals::CLOSED) & 0x40 == 0 && (signals::CLOSED) & 0x80 == 0
            && (signals::CLOSED) & 0x100 != 0 && (signals::CLOSED) & !0x1ffu64 == 0
        &&& (signals::READABLE | signals::CLOSED) & 0x1 != 0
            && (signals::READABLE | signals::CLOSED) & 0x2 == 0
            && (signals::READABLE | signals::CLOSED) & 0x4 == 0
            && (signals::READABLE | signals::CLOSED) & 0x8 == 0
            && (signals::READABLE | signals::CLOSED) & 0x10 == 0
            && (signals::READABLE | signals::CLOSED) & 0x20 == 0
            && (signals::READABLE | signals::CLOSED) & 0x40 == 0
            && (signals::READABLE | signals::CLOSED) & 0x80 == 0
            && (signals::READABLE | signals::CLOSED) & 0x100 != 0
            && (signals::READABLE | signals::CLOSED) & !0x1ffu64 == 0
        &&& (signals::WRITABLE | signals::CLOSED) & 0x1 == 0
            && (signals::WRITABLE | signals::CLOSED) & 0x2 != 0
            && (signals::WRITABLE | signals::CLOSED) & 0x4 == 0
            && (signals::WRITABLE | signals::CLOSED) & 0x8 == 0
            && (signals::WRITABLE | signals::CLOSED) & 0x10 == 0
            && (signals::WRITABLE | signals::CLOSED) & 0x20 == 0
            && (signals::WRITABLE | signals::CLOSED) & 0x40 == 0
            && (signals::WRITABLE | signals::CLOSED) & 0x80 == 0
            && (signals::WRITABLE | signals::CLOSED) & 0x100 != 0
            && (signals::WRITABLE | signals::CLOSED) & !0x1ffu64 == 0
        &&& (signals::EXECUTABLE) & 0x1 == 0 && (signals::EXECUTABLE) & 0x2 == 0
            && (signals::EXECUTABLE) & 0x4 == 0 && (signals::EXECUTABLE) & 0x8 == 0
            && (signals::EXECUTABLE) & 0x10 == 0 && (signals::EXECUTABLE) & 0x20 == 0
            && (signals::EXECUTABLE) & 0x40 == 0 && (signals::EXECUTABLE) & 0x80 != 0
            && (signals::EXECUTABLE) & 0x100 == 0 && (signals::EXECUTABLE) & !0x1ffu64 == 0
        &&& (signals::REAPABLE | signals::CLOSED) & 0x1 == 0
            && (signals::REAPABLE | signals::CLOSED) & 0x2 == 0
            && (signals::REAPABLE | signals::CLOSED) & 0x4 == 0
            && (signals::REAPABLE | signals::CLOSED) & 0x8 == 0
            && (signals::REAPABLE | signals::CLOSED) & 0x10 == 0
            && (signals::REAPABLE | signals::CLOSED) & 0x20 == 0
            && (signals::REAPABLE | signals::CLOSED) & 0x40 != 0
            && (signals::REAPABLE | signals::CLOSED) & 0x80 == 0
            && (signals::REAPABLE | signals::CLOSED) & 0x100 != 0
            && (signals::REAPABLE | signals::CLOSED) & !0x1ffu64 == 0
        &&& (signals::DONE | signals::CLOSED) & 0x1 == 0
            && (signals::DONE | signals::CLOSED) & 0x2 == 0
            && (signals::DONE | signals::CLOSED) & 0x4 == 0
            && (signals::DONE | signals::CLOSED) & 0x8 == 0
            && (signals::DONE | signals::CLOSED) & 0x10 == 0
            && (signals::DONE | signals::CLOSED) & 0x20 != 0
            && (signals::DONE | signals::CLOSED) & 0x40 == 0
            && (signals::DONE | signals::CLOSED) & 0x80 == 0
            && (signals::DONE | signals::CLOSED) & 0x100 != 0
            && (signals::DONE | signals::CLOSED) & !0x1ffu64 == 0
        &&& (signals::DATA | signals::PEER_CLOSED | signals::CLOSED) & 0x1 == 0
            && (signals::DATA | signals::PEER_CLOSED | signals::CLOSED) & 0x2 == 0
            && (signals::DATA | signals::PEER_CLOSED | signals::CLOSED) & 0x4 != 0
            && (signals::DATA | signals::PEER_CLOSED | signals::CLOSED) & 0x8 == 0
            && (signals::DATA | signals::PEER_CLOSED | signals::CLOSED) & 0x10 != 0
            && (signals::DATA | signals::PEER_CLOSED | signals::CLOSED) & 0x20 == 0
            && (signals::DATA | signals::PEER_CLOSED | signals::CLOSED) & 0x40 == 0
            && (signals::DATA | signals::PEER_CLOSED | signals::CLOSED) & 0x80 == 0
            && (signals::DATA | signals::PEER_CLOSED | signals::CLOSED) & 0x100 != 0
            && (signals::DATA | signals::PEER_CLOSED | signals::CLOSED) & !0x1ffu64 == 0
    }) by (bit_vector);
}

/// What is entered is what was asked for, and it is entered exactly if the role belongs to the
/// object and has every right that is asked for; else rights are denied.
pub proof fn entries_say_what_was_asked(
    object: Koid,
    kind: ObjectKind,
    role: HandleRole,
    asked: Rights,
)
    ensures
        entry_result(object, kind, role, asked) matches Ok(entry) ==> entry.object == object
            && entry.kind == kind && entry.role == role && entry.rights == asked,
        entry_result(object, kind, role, asked) is Ok <==> (max_rights(kind, role) matches Some(most)
            && asked & !most == 0),
        entry_result(object, kind, role, asked) matches Err(error) ==> error
            == TableError::RightsDenied,
{
    if max_rights(kind, role) is Some {
        let most = max_rights(kind, role)->0;
        all_rights_may_enter(object, kind, role);
        if asked & !most == 0 {
            rights::subset_of_known(asked, most);
        }
    }
}

/// A handle is resolved to the entry that was found, exactly if the entry is of the kind and in
/// the role that the call is for; another one is of the wrong type, and a failed lookup is
/// reported as itself.
pub proof fn resolving_changes_nothing(
    found: Result<ProcessHandleEntry, TableError>,
    kind: ObjectKind,
    role: HandleRole,
)
    ensures
        resolve_result(found, kind, role) matches Ok(entry) ==> found == Ok::<_, TableError>(entry)
            && entry.kind == kind && entry.role == role,
        found matches Ok(entry) ==> (entry.kind == kind && entry.role == role <==> resolve_result(
            found,
            kind,
            role,
        ) is Ok),
        found is Ok
            && resolve_result(found, kind, role) is Err ==> resolve_result(found, kind, role)
            == Err::<ProcessHandleEntry, _>(SystemCallError::WrongObjectType),
        found matches Err(error) ==> resolve_result(found, kind, role) == Err::<
            ProcessHandleEntry,
            _,
        >(reported(error)),
{
}

/// Two failures of the table are reported alike only if both are handles that mean nothing:
/// no such handle, or one named twice.
pub proof fn table_failures_stay_apart(a: TableError, b: TableError)
    requires
        reported(a) == reported(b),
        a != b,
    ensures
        a == TableError::InvalidHandle || a == TableError::DuplicateHandle,
        b == TableError::InvalidHandle || b == TableError::DuplicateHandle,
        reported(a) == SystemCallError::IllegalArgument,
{
}

} // verus!
