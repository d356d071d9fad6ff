//! Telling the harts that execute a process about a change of its address space.
use vstd::prelude::*;

use crate::error::SystemCallError;
use crate::lifecycle::{ExecutionSnapshot, Lifecycle, LifecycleView};

verus! {

/// How often the mappings, and the code, of an address space have changed.
#[derive(Clone, Copy, Debug, PartialEq, Eq, Structural)]
pub struct EpochSnapshot {
    pub translation: u64,
    pub instruction: u64,
}

/// Moves an epoch on; `None`, and no change, if it is spent.
pub fn advance_epoch(epoch: &mut u64) -> (r: Option<u64>)
    ensures
        r == if *old(epoch) < u64::MAX {
            Some((*old(epoch) + 1) as u64)
        } else {
            None
        },
        *final(epoch) == if *old(epoch) < u64::MAX {
            (*old(epoch) + 1) as u64
        } else {
            *old(epoch)
        },
{
    match epoch.checked_add(1) {
        None => None,
        Some(next) => {
            *epoch = next;
            Some(next)
        },
    }
}

/// Why a shootdown could not be prepared.
#[derive(Clone, Copy, Debug, PartialEq, Eq, Structural)]
pub enum PrepareShootdownError {
    NotRunning,
    Busy,
    InvalidTargets,
    OutOfMemory,
}

/// Why calls to other harts could not be reserved.
#[derive(Clone, Copy, Debug, PartialEq, Eq, Structural)]
pub enum ReserveError {
    Busy,
    InvalidTargets,
    EmptyTargets,
    AllocationFailed,
}

/// What the refusal to reserve means for the shootdown.
pub open spec fn reserve_refusal(error: ReserveError) -> PrepareShootdownError {
    match error {
        ReserveError::Busy => PrepareShootdownError::Busy,
        ReserveError::InvalidTargets | ReserveError::EmptyTargets => {
            PrepareShootdownError::InvalidTargets
        },
        ReserveError::AllocationFailed => PrepareShootdownError::OutOfMemory,
    }
}

/// How a shootdown that could not be prepared is reported.
pub fn map_shootdown_error(error: PrepareShootdownError) -> (r: SystemCallError)
    ensures
        r == match error {
            PrepareShootdownError::NotRunning => SystemCallError::ObjectClosed,
            PrepareShootdownError::Busy => SystemCallError::ObjectBusy,
            PrepareShootdownError::InvalidTargets => SystemCallError::InternalError,
            PrepareShootdownError::OutOfMemory => SystemCallError::OutOfMemory,
        },
{
    match error {
        PrepareShootdownError::NotRunning => SystemCallError::ObjectClosed,
        PrepareShootdownError::Busy => SystemCallError::ObjectBusy,
        PrepareShootdownError::InvalidTargets => SystemCallError::InternalError,
        PrepareShootdownError::OutOfMemory => SystemCallError::OutOfMemory,
    }
}

/// A shootdown that only has to be committed.
#[derive(Clone, Copy, Debug, PartialEq, Eq, Structural)]
pub struct PreparedShootdown {
    /// What the process looked like.
    pub execution: ExecutionSnapshot,
    /// Calls to other harts are reserved; else there is nobody to tell.
    pub remote: bool,
}

/// A change was prepared against a state that is gone.
#[derive(Clone, Copy, Debug, PartialEq, Eq, Structural)]
pub struct ShootdownChanged;

/// What a hart is asked to forget.
#[derive(Clone, Copy, Debug, PartialEq, Eq, Structural)]
pub struct FenceRequest {
    pub identity: usize,
    pub translation: u64,
    /// 0 if the code has not changed.
    pub instruction: u64,
    pub start_vpn: usize,
    pub page_count: usize,
}

/// What remains to do after the commit.
#[derive(Clone, Copy, Debug, PartialEq, Eq, Structural)]
pub enum ShootdownSynchronization {
    /// Send the request to the reserved harts.
    Remote(FenceRequest),
    /// Nobody to tell: the change is complete.
    Immediate,
}

/// Identity and epochs of an address space.
#[derive(Clone, Copy, Debug, PartialEq, Eq, Structural)]
pub struct AddressSpaceEpochs {
    pub identity: usize,
    pub translation: u64,
    pub instruction: u64,
}

impl AddressSpaceEpochs {
    /// The epochs cannot be moved on for a change of this sort.
    pub open spec fn spent(self, instruction: bool) -> bool {
        self.translation == u64::MAX || (instruction && self.instruction == u64::MAX)
    }

    /// The epochs after a change.
    pub open spec fn changed(self, instruction: bool) -> AddressSpaceEpochs {
        AddressSpaceEpochs {
            translation: (self.translation + 1) as u64,
            instruction: if instruction {
                (self.instruction + 1) as u64
            } else {
                self.instruction
            },
            ..self
        }
    }

    /// A new address space.
    pub fn unbound(identity: usize) -> (r: AddressSpaceEpochs)
        requires
            identity != 0,
        ensures
            r == (AddressSpaceEpochs { identity, translation: 1, instruction: 1 }),
    {
        AddressSpaceEpochs { identity, translation: 1, instruction: 1 }
    }

    pub fn epochs(&self) -> (r: EpochSnapshot)
        ensures
            r == (EpochSnapshot {
                translation: self.translation,
                instruction: self.instruction,
            }),
    {
        EpochSnapshot { translation: self.translation, instruction: self.instruction }
    }

    /// Whether a hart that has caught up with `expected` is still up to date; `observes`
    /// says whether it has.
    pub fn local_is_current(&self, expected: EpochSnapshot, observes: bool) -> (r: bool)
        ensures
            r == (observes && expected.translation == self.translation && expected.instruction
                == self.instruction),
    {
        let epochs = self.epochs();
        epochs.translation == expected.translation && epochs.instruction == expected.instruction
            && observes
    }

    /// Moves the epochs on.
    pub fn publish_epochs(&mut self, instruction: bool) -> (r: EpochSnapshot)
        requires
            !old(self).spent(instruction),
        ensures
            *final(self) == old(self).changed(instruction),
            r == (EpochSnapshot {
                translation: final(self).translation,
                instruction: final(self).instruction,
            }),
    {
        advance_epoch(&mut self.translation);
        if instruction {
            advance_epoch(&mut self.instruction);
        }
        self.epochs()
    }

    /// Commits a change of `page_count` pages from page `start_vpn` on, which was prepared
    /// as `prepared`: only if the process still looks as it did. What is published with it
    /// is published exactly if this succeeds.
    pub fn commit_shootdown(
        &mut self,
        lifecycle: &Lifecycle,
        prepared: PreparedShootdown,
        start_vpn: usize,
        page_count: usize,
        instruction: bool,
    ) -> (r: Result<ShootdownSynchronization, ShootdownChanged>)
        requires
            page_count != 0,
        ensures
            r is Ok <==> !old(self).spent(instruction) && current(lifecycle@, prepared.execution),
            r is Err ==> *final(self) == *old(self),
            r matches Ok(synchronization) ==> {
                &&& *final(self) == old(self).changed(instruction)
                &&& synchronization == if prepared.remote {
                    ShootdownSynchronization::Remote(
                        FenceRequest {
                            identity: old(self).identity,
                            translation: final(self).translation,
                            instruction: if instruction {
                                final(self).instruction
                            } else {
                                0
                            },
                            start_vpn,
                            page_count,
                        },
                    )
                } else {
                    ShootdownSynchronization::Immediate
                }
            },
    {
        if self.translation == u64::MAX || (instruction && self.instruction == u64::MAX) {
            return Err(ShootdownChanged);
        }
        match lifecycle.commit_if_current(prepared.execution) {
            Err(_) => {
                return Err(ShootdownChanged);
            },
            Ok(_) => {},
        }
        let epochs = self.publish_epochs(instruction);
        if prepared.remote {
            let code: u64 = if instruction {
                epochs.instruction
            } else {
                0
            };
            Ok(
                ShootdownSynchronization::Remote(
                    FenceRequest {
                        identity: self.identity,
                        translation: epochs.translation,
                        instruction: code,
                        start_vpn,
                        page_count,
                    },
                ),
            )
        } else {
            Ok(ShootdownSynchronization::Immediate)
        }
    }
}

/// The process still looks like the snapshot.
pub open spec fn current(state: LifecycleView, snapshot: ExecutionSnapshot) -> bool {
    &&& state.state is Running
    &&& state.execution_sequence == snapshot.sequence
    &&& state.active == snapshot.active
}

/// Prepares to tell the harts that execute the process now; `reserved` is what reserving
/// calls to them gave, which is asked for only if there are any.
pub fn prepare_shootdown(lifecycle: &Lifecycle, reserved: Result<(), ReserveError>) -> (r: Result<
    PreparedShootdown,
    PrepareShootdownError,
>)
    ensures
        r == if !(lifecycle@.state is Running) {
            Err::<PreparedShootdown, _>(PrepareShootdownError::NotRunning)
        } else if lifecycle@.active != 0 && reserved is Err {
            Err(reserve_refusal(reserved->Err_0))
        } else {
            Ok(
                PreparedShootdown {
                    execution: ExecutionSnapshot {
                        sequence: lifecycle@.execution_sequence,
                        active: lifecycle@.active,
                    },
                    remote: lifecycle@.active != 0,
                },
            )
        },
        r matches Ok(prepared) ==> current(lifecycle@, prepared.execution),
{
    let execution = match lifecycle.snapshot_running() {
        None => {
            return Err(PrepareShootdownError::NotRunning);
        },
        Some(execution) => execution,
    };
    if execution.active() == 0 {
        return Ok(PreparedShootdown { execution, remote: false });
    }
    match reserved {
        Err(ReserveError::Busy) => Err(PrepareShootdownError::Busy),
        Err(ReserveError::InvalidTargets) => Err(PrepareShootdownError::InvalidTargets),
        Err(ReserveError::EmptyTargets) => Err(PrepareShootdownError::InvalidTargets),
        Err(ReserveError::AllocationFailed) => Err(PrepareShootdownError::OutOfMemory),
        Ok(_) => Ok(PreparedShootdown { execution, remote: true }),
    }
}

/// A hart that comes or goes after a shootdown was prepared makes its commit fail: no
/// hart can miss the change.
pub proof fn changed_execution_is_refused(before: LifecycleView, after: LifecycleView)
    requires
        before.state is Running,
        after.execution_sequence != before.execution_sequence,
    ensures
        !current(
            after,
            ExecutionSnapshot { sequence: before.execution_sequence, active: before.active },
        ),
{
}

/// Every change can be told from every earlier one: the translation epoch grows with
/// each, and the instruction epoch with each change of code.
pub proof fn epochs_tell_changes_apart(space: AddressSpaceEpochs, instruction: bool)
    requires
        !space.spent(instruction),
    ensures
        space.changed(instruction).translation > space.translation,
        space.changed(instruction).instruction >= space.instruction,
        instruction ==> space.changed(instruction).instruction > space.instruction,
        space.changed(instruction).identity == space.identity,
{
}

/// What a refusal to reserve means: calls under way are busy, and no harts, or harts that are not
/// there, are bad targets. None says that the process does not run.
pub proof fn reservations_fail_for_their_reason(error: ReserveError)
    ensures
        reserve_refusal(error) is Busy <==> error is Busy,
        reserve_refusal(error) is OutOfMemory <==> error is AllocationFailed,
        reserve_refusal(error) is InvalidTargets <==> error is InvalidTargets
            || error is EmptyTargets,
{
}

/// Every change moves the epoch of translations on by one, and that of instructions by one
/// exactly if the change concerns instructions; the identity stays.
pub proof fn changes_move_epochs_by_one(space: AddressSpaceEpochs, instruction: bool)
    requires
        !space.spent(instruction),
    ensures
        space.changed(instruction).translation == space.translation + 1,
        space.changed(instruction).instruction == space.instruction + (if instruction {
            1int
        } else {
            0
        }),
        space.changed(instruction).identity == space.identity,
        space.spent(instruction) <==> space.translation == u64::MAX || (instruction
            && space.instruction == u64::MAX),
{
}

/// A snapshot holds only of the process it was taken of, as long as no hart enters or leaves it:
/// any step of the execution sequence makes it stale.
pub proof fn snapshots_grow_stale(state: LifecycleView, snapshot: ExecutionSnapshot)
    requires
        current(state, snapshot),
        state.execution_sequence < u64::MAX,
    ensures
        !current(state.advanced(), snapshot),
        snapshot.active == state.active && snapshot.sequence == state.execution_sequence,
        state.state is Running,
{
}

} // verus!
