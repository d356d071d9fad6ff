//! The capability to switch the machine off or start it over.
use vstd::prelude::*;

use crate::error::SystemCallError;
use crate::handle;
use crate::handle::{ProcessHandleEntry, TableError};
use crate::ids;
use crate::ids::IdSequence;
use crate::object::{HandleRole, Koid, ObjectHeader, ObjectKind};

verus! {

#[derive(Clone, Copy, Debug, PartialEq, Eq, Structural)]
pub enum ResetAction {
    Shutdown,
    Reboot,
}

#[derive(Clone, Copy, Debug, PartialEq, Eq, Structural)]
pub enum ResetReason {
    Requested,
    SystemFailure,
}

/// What the firmware is asked to do.
#[derive(Clone, Copy, Debug, PartialEq, Eq, Structural)]
pub enum PlatformAction {
    Shutdown,
    ColdReboot,
}

/// What the firmware is told as the reason.
#[derive(Clone, Copy, Debug, PartialEq, Eq, Structural)]
pub enum PlatformReason {
    Unspecified,
    SystemFailure,
}

/// What the firmware answered; a successful reset does not answer.
#[derive(Clone, Copy, Debug, PartialEq, Eq, Structural)]
pub enum PlatformAnswer {
    NotSupported,
    OtherError,
    Returned,
}

/// The object behind the capability; at most one request is under way.
#[derive(Debug)]
pub struct SystemReset {
    header: ObjectHeader,
    in_flight: bool,
}

impl SystemReset {
    pub closed spec fn koid(&self) -> Koid {
        self.header.spec_koid()
    }

    /// A request is under way.
    pub closed spec fn busy(&self) -> bool {
        self.in_flight
    }

    pub fn new(sequence: &mut IdSequence) -> (r: SystemReset)
        requires
            old(sequence)@ is Some,
        ensures
            Some(r.koid()) == old(sequence)@,
            final(sequence)@ == ids::after(old(sequence)@),
            !r.busy(),
    {
        SystemReset { header: ObjectHeader::new(sequence), in_flight: false }
    }

    /// Starts a request, unless one is under way.
    pub fn begin(&mut self) -> (r: Result<(), SystemCallError>)
        ensures
            r == if old(self).busy() {
                Err::<(), _>(SystemCallError::ObjectBusy)
            } else {
                Ok(())
            },
            final(self).busy(),
            final(self).koid() == old(self).koid(),
    {
        if self.in_flight {
            return Err(SystemCallError::ObjectBusy);
        }
        self.in_flight = true;
        Ok(())
    }

    /// Ends a request that the firmware answered.
    pub fn finish_failed(&mut self)
        ensures
            !final(self).busy(),
            final(self).koid() == old(self).koid(),
    {
        self.in_flight = false;
    }
}

/// What the firmware is asked for.
pub fn map_to_sbi(action: ResetAction, reason: ResetReason) -> (r: (PlatformAction, PlatformReason))
    ensures
        r.0 == (if action == ResetAction::Shutdown {
            PlatformAction::Shutdown
        } else {
            PlatformAction::ColdReboot
        }),
        r.1 == (if reason == ResetReason::Requested {
            PlatformReason::Unspecified
        } else {
            PlatformReason::SystemFailure
        }),
{
    let asked = match action {
        ResetAction::Shutdown => PlatformAction::Shutdown,
        ResetAction::Reboot => PlatformAction::ColdReboot,
    };
    let told = match reason {
        ResetReason::Requested => PlatformReason::Unspecified,
        ResetReason::SystemFailure => PlatformReason::SystemFailure,
    };
    (asked, told)
}

/// Accepts a request: `action` and `reason` are what the caller's numbers mean, if
/// anything, and `found` is what the lookup with the right to manage gave. What to
/// ask the firmware for.
pub fn request(
    reset: &mut SystemReset,
    action: Option<ResetAction>,
    reason: Option<ResetReason>,
    found: Result<ProcessHandleEntry, TableError>,
) -> (r: Result<(PlatformAction, PlatformReason), SystemCallError>)
    ensures
        ({
            let resolved = handle::resolve_result(
                found,
                ObjectKind::SystemReset,
                HandleRole::SystemResetControl,
            );
            let refused = |error: SystemCallError| Err::<(PlatformAction, PlatformReason), _>(error);
            if action is None || reason is None {
                r == refused(SystemCallError::IllegalArgument)
            } else if resolved is Err {
                r == refused(resolved->Err_0)
            } else if old(reset).busy() {
                r == refused(SystemCallError::ObjectBusy)
            } else {
                &&& r is Ok
                &&& r->Ok_0.0 == if action->0 == ResetAction::Shutdown {
                    PlatformAction::Shutdown
                } else {
                    PlatformAction::ColdReboot
                }
                &&& r->Ok_0.1 == if reason->0 == ResetReason::Requested {
                    PlatformReason::Unspecified
                } else {
                    PlatformReason::SystemFailure
                }
            }
        }),
        final(reset).busy() == (old(reset).busy() || r is Ok),
        final(reset).koid() == old(reset).koid(),
{
    let (action, reason) = match (action, reason) {
        (Some(action), Some(reason)) => (action, reason),
        _ => {
            return Err(SystemCallError::IllegalArgument);
        },
    };
    match handle::resolve(found, ObjectKind::SystemReset, HandleRole::SystemResetControl) {
        Err(error) => {
            return Err(error);
        },
        Ok(_) => {},
    }
    match reset.begin() {
        Err(error) => Err(error),
        Ok(_) => Ok(map_to_sbi(action, reason)),
    }
}

/// Ends a request that the firmware answered instead of resetting: the capability can
/// be used again, and the caller is told why nothing happened.
pub fn answered(reset: &mut SystemReset, answer: PlatformAnswer) -> (r: SystemCallError)
    ensures
        r == if answer == PlatformAnswer::NotSupported {
            SystemCallError::NotSupported
        } else {
            SystemCallError::InternalError
        },
        !final(reset).busy(),
        final(reset).koid() == old(reset).koid(),
{
    reset.finish_failed();
    match answer {
        PlatformAnswer::NotSupported => SystemCallError::NotSupported,
        _ => SystemCallError::InternalError,
    }
}

} // verus!
