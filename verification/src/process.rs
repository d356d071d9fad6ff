//! Building, observing, ending and draining a process.
use vstd::prelude::*;

use crate::error::SystemCallError;
use crate::handle;
use crate::handle::{Handle, ProcessHandleEntry, TableError};
use crate::job;
use crate::job::{CompletionCursor, JobTree, Pid, TreeView};
use crate::lifecycle;
use crate::lifecycle::{
    AttachFault, Lifecycle, LifecycleView, ProcessExitReason, ProcessState, TerminationTodo, Tid,
};
use crate::map_intent::UserSpace;
use crate::notify_work::Reservation;
use crate::object;
use crate::object::{HandleRole, Koid, ObjectKind, ObjectWaitState, WaitView};
use crate::ordered_table::Entry;
use crate::request::ProcessDrainResult;
use crate::resources::ProcessResources;
use crate::rights;
use crate::rights::Rights;
use crate::signals;
use crate::signals::ObjectSignals;
use crate::space;
use crate::space::SpaceError;
use crate::thread;
use crate::translation;
use crate::translation::{BuildingChunk, PageMapping};

verus! {

/// How many pages one mapping of a process under construction may have.
pub const MAX_MAP_PAGES: usize = 256;

pub const PAGE_SIZE: usize = 4_096;

/// What execution a process asks for.
#[derive(Clone, Copy, Debug, PartialEq, Eq, Structural)]
pub enum IsaRequirement {
    Base64,
    D64,
}

/// The authority over a process under construction. It does not keep the process
/// alive.
#[derive(Clone, Copy, Debug, PartialEq, Eq, Structural)]
pub struct ProcessBuilder {
    pub process: Option<u64>,
}

impl ProcessBuilder {
    /// The process, if it is still there; `alive` says whether it is.
    pub fn process(&self, alive: bool) -> (r: Result<u64, SystemCallError>)
        ensures
            r == if self.process is Some && alive {
                Ok::<u64, SystemCallError>(self.process->0)
            } else {
                Err(SystemCallError::ObjectClosed)
            },
    {
        match self.process {
            Some(process) => if alive {
                Ok(process)
            } else {
                Err(SystemCallError::ObjectClosed)
            },
            None => Err(SystemCallError::ObjectClosed),
        }
    }

    /// Uses the authority up, once the process is started.
    pub fn consume(&mut self)
        requires
            old(self).process is Some,
        ensures
            final(self).process is None,
    {
        self.process = None;
    }

    /// Gives the authority up: the process to take down, if it is still there. Giving
    /// it up again does nothing.
    pub fn abort(&mut self, alive: bool) -> (r: Option<u64>)
        ensures
            final(self).process is None,
            r == if alive {
                old(self).process
            } else {
                None
            },
    {
        let process = self.process.take();
        if alive {
            process
        } else {
            None
        }
    }
}

/// What is left of a process that is gone.
#[derive(Clone, Copy, Debug, PartialEq, Eq, Structural)]
pub struct DeadSnapshot {
    pub pid: u64,
    pub parent_pid: u64,
    pub reason: ProcessExitReason,
    pub code: i64,
}

/// What a query of a process tells.
#[derive(Clone, Copy, Debug, PartialEq, Eq, Structural)]
pub struct ProcessSnapshot {
    pub pid: u64,
    pub parent_pid: u64,
    pub state: ProcessState,
    pub reason: ProcessExitReason,
    pub code: i64,
}

/// The object through which a process is observed and ended; it outlives the process.
pub struct ProcessControl {
    wait: ObjectWaitState,
    core: u64,
    dead: Option<DeadSnapshot>,
}

/// The control of a process, as a value.
#[verifier::ext_equal]
pub struct ControlView {
    pub wait: WaitView,
    pub core: u64,
    /// The end of the process, once it is frozen.
    pub dead: Option<DeadSnapshot>,
}

impl View for ProcessControl {
    type V = ControlView;

    closed spec fn view(&self) -> ControlView {
        ControlView { wait: self.wait@, core: self.core, dead: self.dead }
    }
}

impl ControlView {
    /// What every operation keeps: a control shows nothing, that the process can be
    /// reaped, or that it is gone, and never two of them. Only a spent counter of
    /// publications makes it show that the process is gone before its end is frozen.
    pub open spec fn wf(self) -> bool {
        &&& self.wait.wf()
        &&& self.wait.signals == signals::NONE || self.wait.signals == signals::REAPABLE
            || self.wait.signals == signals::CLOSED
        &&& self.dead is Some ==> self.wait.signals == signals::CLOSED
        &&& self.dead is None && self.wait.serial < u64::MAX ==> self.wait.signals
            != signals::CLOSED
    }
}

/// Publications of a control keep it well formed.
proof fn control_levels(wait: WaitView)
    requires
        wait.wf(),
        wait.signals == signals::NONE || wait.signals == signals::REAPABLE || wait.signals
            == signals::CLOSED,
    ensures
        ({
            let reapable = wait.updated(signals::NONE, signals::REAPABLE);
            let gone = wait.updated(signals::REAPABLE, signals::CLOSED);
            &&& reapable.wf()
            &&& reapable.signals == signals::REAPABLE || reapable.signals == signals::CLOSED
            &&& wait.signals != signals::CLOSED && reapable.serial < u64::MAX ==> reapable.signals
                == signals::REAPABLE
            &&& wait.signals == signals::CLOSED ==> reapable == wait
            &&& gone.wf()
            &&& gone.signals == signals::CLOSED
        }),
{
    object::update_keeps_wf(wait, signals::NONE, signals::REAPABLE);
    object::update_keeps_wf(wait, signals::REAPABLE, signals::CLOSED);
    assert((0u64 & !0u64) | 0x40u64 == 0x40 && (0x40u64 & !0u64) | 0x40u64 == 0x40 && (0u64
        & !0x40u64) | 0x100u64 == 0x100 && (0x40u64 & !0x40u64) | 0x100u64 == 0x100 && 0u64
        & 0x100u64 == 0 && 0x40u64 & 0x100u64 == 0 && 0x100u64 & 0x100u64 != 0) by (bit_vector);
    if wait.signals != signals::CLOSED {
        object::publication_is_exact(wait, signals::NONE, signals::REAPABLE);
    }
}

impl ProcessControl {
    pub closed spec fn wf(&self) -> bool {
        self@.wf() && self.wait.wf()
    }

    pub proof fn wf_view(&self)
        requires
            self.wf(),
        ensures
            self@.wf(),
    {
    }

    pub fn new(core: u64) -> (r: ProcessControl)
        ensures
            r.wf(),
            r@.core == core,
            r@.dead is None,
            r@.wait == WaitView::fresh(signals::NONE),
    {
        let control = ProcessControl {
            wait: ObjectWaitState::new(signals::NONE),
            core,
            dead: None,
        };
        proof {
            control.wait.wf_view();
        }
        control
    }

    /// What a query tells. A frozen end is told as it is; else `alive` is what the
    /// living process says.
    pub fn snapshot(
        &self,
        pid: u64,
        parent_pid: u64,
        alive: (ProcessState, ProcessExitReason, i64),
    ) -> (r: ProcessSnapshot)
        ensures
            r == match self@.dead {
                Some(dead) => ProcessSnapshot {
                    pid: dead.pid,
                    parent_pid: dead.parent_pid,
                    state: ProcessState::Dead,
                    reason: dead.reason,
                    code: dead.code,
                },
                None => ProcessSnapshot {
                    pid,
                    parent_pid,
                    state: alive.0,
                    reason: alive.1,
                    code: alive.2,
                },
            },
    {
        match self.dead {
            Some(dead) => ProcessSnapshot {
                pid: dead.pid,
                parent_pid: dead.parent_pid,
                state: ProcessState::Dead,
                reason: dead.reason,
                code: dead.code,
            },
            None => ProcessSnapshot {
                pid,
                parent_pid,
                state: alive.0,
                reason: alive.1,
                code: alive.2,
            },
        }
    }

    /// Shows that everyone has left the process. Once its end is frozen nothing
    /// changes.
    pub fn publish_reapable(&mut self)
        requires
            old(self).wf(),
        ensures
            final(self).wf(),
            final(self)@ == if old(self)@.dead is Some {
                old(self)@
            } else {
                ControlView {
                    wait: old(self)@.wait.updated(signals::NONE, signals::REAPABLE),
                    ..old(self)@
                }
            },
    {
        if self.dead.is_none() {
            proof {
                control_levels(self.wait@);
            }
            self.wait.update(signals::NONE, signals::REAPABLE);
        }
    }

    /// Freezes the end of the process, and shows that it is gone instead of that it can
    /// be reaped. Only the first end counts.
    pub fn publish_dead(&mut self, end: DeadSnapshot)
        requires
            old(self).wf(),
        ensures
            final(self).wf(),
            final(self)@ == if old(self)@.dead is Some {
                old(self)@
            } else {
                ControlView {
                    dead: Some(end),
                    wait: old(self)@.wait.updated(signals::REAPABLE, signals::CLOSED),
                    ..old(self)@
                }
            },
            final(self)@.dead is Some,
            final(self)@.wait.signals == signals::CLOSED,
    {
        if self.dead.is_none() {
            proof {
                control_levels(self.wait@);
            }
            self.dead = Some(end);
            self.wait.update(signals::REAPABLE, signals::CLOSED);
        }
    }

    /// Whether the end of the process is frozen.
    pub fn is_dead(&self) -> (r: bool)
        ensures
            r == (self@.dead is Some),
    {
        self.dead.is_some()
    }

    pub fn signals(&self) -> (r: ObjectSignals)
        ensures
            r == self@.wait.signals,
    {
        self.wait.signals()
    }

    /// Its observers. Whatever is done with them, the control stays in order as long
    /// as its levels are left alone.
    pub fn observers(&mut self) -> (r: &mut ObjectWaitState)
        requires
            old(self).wf(),
        ensures
            r.wf(),
            r@ == old(self)@.wait,
            final(self)@ == (ControlView { wait: final(r)@, ..old(self)@ }),
            final(r).wf() && final(r)@.wf() && final(r)@.same_levels(old(self)@.wait)
                ==> final(self).wf(),
    {
        &mut self.wait
    }

    /// Queues the control if its observers have something to learn.
    pub fn finish_waiters(&mut self) -> (r: Option<(Reservation, Koid)>)
        requires
            old(self).wf(),
        ensures
            final(self).wf(),
            r == old(self)@.wait.news(),
            final(self)@ == (ControlView { wait: old(self)@.wait.queued(), ..old(self)@ }),
    {
        let pending = self.wait.take_notification();
        proof {
            self.wait.wf_view();
        }
        pending
    }
}

/// Creates a process in job `j`, the one that `found` names (a lookup that demands the
/// right to create). `staged` is the process that was built, with its two handles
/// ready to be published, or why it could not be. On failure the place in the job is
/// given up again.
pub fn create(
    tree: &mut JobTree,
    j: usize,
    found: Result<ProcessHandleEntry, TableError>,
    control_rights: Rights,
    room: usize,
    lock_room: bool,
    entry_room: bool,
    staged: Result<u64, SystemCallError>,
) -> (r: Result<Pid, SystemCallError>)
    requires
        old(tree).wf(),
        j < old(tree)@.jobs.len(),
    ensures
        final(tree).wf(),
        ({
            let resolved = handle::resolve_result(found, ObjectKind::Job, HandleRole::JobControl);
            let gate = old(tree)@.gate(j as int, room as int, lock_room);
            let members = old(tree)@.jobs[j as int].members;
            r == if !rights::known(control_rights) || !rights::subset(
                control_rights,
                rights::PROCESS_CONTROL,
            ) {
                Err::<Pid, _>(SystemCallError::RightsDenied)
            } else if resolved is Err {
                Err(resolved->Err_0)
            } else if gate is Err {
                Err(gate->Err_0)
            } else if old(tree)@.next_token is None || old(tree)@.next_pid is None
                || members.entries.len() >= job::JOB_DIRECT_ENTRY_LIMIT {
                Err(SystemCallError::ReachLimit)
            } else if !entry_room {
                Err(SystemCallError::OutOfMemory)
            } else if staged is Err {
                Err(staged->Err_0)
            } else {
                Ok(old(tree)@.next_pid->0)
            }
        }),
        ({
            let drawn = old(tree)@.member_drawn(j as int, room as int, lock_room);
            final(tree)@ == if !rights::known(control_rights) || !rights::subset(
                control_rights,
                rights::PROCESS_CONTROL,
            ) || handle::resolve_result(found, ObjectKind::Job, HandleRole::JobControl) is Err {
                old(tree)@
            } else {
                match r {
                    Err(_) => drawn,
                    Ok(pid) => drawn.with_member(j as int, pid, staged->Ok_0),
                }
            }
        }),
{
    let ghost before = tree@;
    proof {
        tree.wf_view();
    }
    if !rights::is_known(control_rights) || !rights::is_subset_of(
        control_rights,
        rights::PROCESS_CONTROL,
    ) {
        return Err(SystemCallError::RightsDenied);
    }
    match handle::resolve(found, ObjectKind::Job, HandleRole::JobControl) {
        Err(error) => {
            return Err(error);
        },
        Ok(_) => {},
    }
    let (pid, reservation) = match tree.gate_reserve_member(j, room, lock_room, entry_room) {
        Err(error) => {
            return Err(error);
        },
        Ok(reserved) => reserved,
    };
    let ghost drawn = before.token_taken().pid_taken();
    match staged {
        Err(error) => {
            proof {
                job::reserve_then_rollback_new(before, drawn, j as int, pid, reservation.token);
            }
            tree.rollback_member(j, reservation);
            assert(tree@ =~= drawn);
            Err(error)
        },
        Ok(process) => {
            proof {
                job::reserve_then_commit_new(
                    before,
                    drawn,
                    j as int,
                    pid,
                    reservation.token,
                    process,
                );
            }
            tree.commit_member(j, reservation, process);
            Ok(pid)
        },
    }
}

/// The two entries that creating a process publishes: the authority to build it, and
/// the one to observe and end it.
pub fn create_entries(builder: Koid, control: Koid, room: bool, control_rights: Rights) -> (r:
    Result<(ProcessHandleEntry, ProcessHandleEntry), SystemCallError>)
    ensures
        r == if !handle::may_enter(
            ObjectKind::ProcessControl,
            HandleRole::ProcessControl,
            control_rights,
        ) {
            Err::<(ProcessHandleEntry, ProcessHandleEntry), _>(SystemCallError::RightsDenied)
        } else if !room {
            Err(SystemCallError::OutOfMemory)
        } else {
            Ok(
                (
                    ProcessHandleEntry {
                        object: builder,
                        kind: ObjectKind::ProcessBuilder,
                        role: HandleRole::ProcessBuilder,
                        rights: rights::PROCESS_BUILDER,
                    },
                    ProcessHandleEntry {
                        object: control,
                        kind: ObjectKind::ProcessControl,
                        role: HandleRole::ProcessControl,
                        rights: control_rights,
                    },
                ),
            )
        },
{
    proof {
        handle::all_rights_may_enter(builder, ObjectKind::ProcessBuilder, HandleRole::ProcessBuilder);
    }
    let first = match handle::entry(
        builder,
        ObjectKind::ProcessBuilder,
        HandleRole::ProcessBuilder,
        rights::MAP | rights::WRITE | rights::MANAGE | rights::TRANSIT | rights::GRANT,
    ) {
        Err(error) => {
            return Err(handle::map_error(error));
        },
        Ok(entry) => entry,
    };
    let second = match handle::entry(
        control,
        ObjectKind::ProcessControl,
        HandleRole::ProcessControl,
        control_rights,
    ) {
        Err(error) => {
            return Err(handle::map_error(error));
        },
        Ok(entry) => entry,
    };
    if !room {
        return Err(SystemCallError::OutOfMemory);
    }
    Ok((first, second))
}

/// Registers an operation on a process under construction: `asked` is what was found of the
/// caller's other arguments, `found` what the lookup of the builder gave, `alive` whether the
/// process is still there. The operation must be ended with
/// [`Lifecycle::leave_building_op`], or by starting the process.
pub fn begin_building(
    lifecycle: &mut Lifecycle,
    asked: Result<(), SystemCallError>,
    found: Result<ProcessHandleEntry, TableError>,
    builder: &ProcessBuilder,
    alive: bool,
) -> (r: Result<u64, SystemCallError>)
    requires
        old(lifecycle).wf(),
        !old(lifecycle)@.terminating() ==> old(lifecycle)@.building_ops < usize::MAX,
    ensures
        final(lifecycle).wf(),
        ({
            let resolved = handle::resolve_result(
                found,
                ObjectKind::ProcessBuilder,
                HandleRole::ProcessBuilder,
            );
            r == if asked is Err {
                Err::<u64, _>(asked->Err_0)
            } else if resolved is Err {
                Err(resolved->Err_0)
            } else if builder.process is None || !alive || old(lifecycle)@.terminating() {
                Err(SystemCallError::ObjectClosed)
            } else {
                Ok(builder.process->0)
            }
        }),
        final(lifecycle)@ == if r is Ok {
            LifecycleView {
                building_ops: (old(lifecycle)@.building_ops + 1) as usize,
                ..old(lifecycle)@
            }
        } else {
            old(lifecycle)@
        },
{
    match asked {
        Err(error) => {
            return Err(error);
        },
        Ok(_) => {},
    }
    match handle::resolve(found, ObjectKind::ProcessBuilder, HandleRole::ProcessBuilder) {
        Err(error) => {
            return Err(error);
        },
        Ok(_) => {},
    }
    let process = match builder.process(alive) {
        Err(error) => {
            return Err(error);
        },
        Ok(process) => process,
    };
    if !lifecycle.enter_building_op() {
        return Err(SystemCallError::ObjectClosed);
    }
    Ok(process)
}

/// How binding memory to a process ended.
#[derive(Clone, Copy, Debug, PartialEq, Eq)]
pub struct BindEnd {
    pub result: Result<(), SystemCallError>,
    /// The pinned entries are to be released; on success the pool's entry is gone and
    /// is to be closed.
    pub unpin: bool,
}

/// Binds a pool to the address space of a process under construction. `bound` says
/// whether the space is bound already, `bound_again` whether it is once the claim to bind it
/// is taken, and `bound_since` whether it is when the binding is committed; `pool_found` is what the lookup of the pool with the right to grant
/// gave; `pinned` what pinning both entries gave; `room` whether there is memory to
/// take the entry out; `prepared` what preparing the binding gave. Only one binding is
/// attempted at a time, and the claim to attempt it is always given up.
pub fn bind_memory(
    resources: &mut ProcessResources,
    bound: bool,
    bound_again: bool,
    pool_found: Result<ProcessHandleEntry, TableError>,
    pinned: Result<(), TableError>,
    room: bool,
    prepared: Result<(), SystemCallError>,
    bound_since: bool,
) -> (r: BindEnd)
    ensures
        *final(resources) == *old(resources),
        ({
            let pool = handle::resolve_result(
                pool_found,
                ObjectKind::MemoryPool,
                HandleRole::MemoryPool,
            );
            let refused = |error: SystemCallError, unpin: bool|
                BindEnd { result: Err::<(), _>(error), unpin };
            r == if bound {
                refused(SystemCallError::ObjectNotAvailable, false)
            } else if old(resources).bind_in_progress {
                refused(SystemCallError::ObjectBusy, false)
            } else if bound_again {
                refused(SystemCallError::ObjectNotAvailable, false)
            } else if pool is Err {
                refused(pool->Err_0, false)
            } else if pinned is Err {
                refused(handle::reported(pinned->Err_0), false)
            } else if !room {
                refused(SystemCallError::OutOfMemory, true)
            } else if prepared is Err {
                refused(prepared->Err_0, true)
            } else if bound_since {
                refused(SystemCallError::ObjectNotAvailable, true)
            } else {
                BindEnd { result: Ok(()), unpin: false }
            }
        }),
{
    if bound {
        return BindEnd { result: Err(SystemCallError::ObjectNotAvailable), unpin: false };
    }
    match resources.try_reserve_binding() {
        Err(error) => {
            return BindEnd { result: Err(error), unpin: false };
        },
        Ok(_) => {},
    }
    let end = bind_claimed(bound_again, pool_found, pinned, room, prepared, bound_since);
    resources.release_binding();
    end
}

/// Binds a pool, once the claim to do so is taken.
fn bind_claimed(
    bound_again: bool,
    pool_found: Result<ProcessHandleEntry, TableError>,
    pinned: Result<(), TableError>,
    room: bool,
    prepared: Result<(), SystemCallError>,
    bound_since: bool,
) -> (r: BindEnd)
    ensures
        ({
            let pool = handle::resolve_result(
                pool_found,
                ObjectKind::MemoryPool,
                HandleRole::MemoryPool,
            );
            let refused = |error: SystemCallError, unpin: bool|
                BindEnd { result: Err::<(), _>(error), unpin };
            r == if bound_again {
                refused(SystemCallError::ObjectNotAvailable, false)
            } else if pool is Err {
                refused(pool->Err_0, false)
            } else if pinned is Err {
                refused(handle::reported(pinned->Err_0), false)
            } else if !room {
                refused(SystemCallError::OutOfMemory, true)
            } else if prepared is Err {
                refused(prepared->Err_0, true)
            } else if bound_since {
                refused(SystemCallError::ObjectNotAvailable, true)
            } else {
                BindEnd { result: Ok(()), unpin: false }
            }
        }),
{
    if bound_again {
        return BindEnd { result: Err(SystemCallError::ObjectNotAvailable), unpin: false };
    }
    match handle::resolve(pool_found, ObjectKind::MemoryPool, HandleRole::MemoryPool) {
        Err(error) => {
            return BindEnd { result: Err(error), unpin: false };
        },
        Ok(_) => {},
    }
    match pinned {
        Err(error) => {
            return BindEnd { result: Err(handle::map_error(error)), unpin: false };
        },
        Ok(_) => {},
    }
    if !room {
        return BindEnd { result: Err(SystemCallError::OutOfMemory), unpin: true };
    }
    match prepared {
        Err(error) => {
            return BindEnd { result: Err(error), unpin: true };
        },
        Ok(_) => {},
    }
    if bound_since {
        return BindEnd { result: Err(SystemCallError::ObjectNotAvailable), unpin: true };
    }
    BindEnd { result: Ok(()), unpin: false }
}

/// Whether builder and pool are different handles.
pub fn check_bind_handles(builder: Handle, pool: Handle) -> (r: Result<(), SystemCallError>)
    ensures
        r == if builder == pool {
            Err::<(), _>(SystemCallError::IllegalArgument)
        } else {
            Ok(())
        },
{
    if builder == pool {
        Err(SystemCallError::IllegalArgument)
    } else {
        Ok(())
    }
}

/// Whether a mapping of `len` bytes may be asked for.
pub fn check_map(len: usize) -> (r: Result<(), SystemCallError>)
    ensures
        r == if len == 0 || len / PAGE_SIZE > MAX_MAP_PAGES {
            Err::<(), _>(SystemCallError::IllegalArgument)
        } else {
            Ok(())
        },
{
    if len == 0 || len / PAGE_SIZE > MAX_MAP_PAGES {
        Err(SystemCallError::IllegalArgument)
    } else {
        Ok(())
    }
}

/// How a mapping of a process under construction ended, and whether its plan is to be
/// rolled back: `planned` is what planning it gave, `funded` whether its pages could be
/// funded, `completed` what entering it gave.
pub fn map(
    planned: Result<(), SpaceError>,
    funded: bool,
    completed: Result<(), SpaceError>,
) -> (r: (Result<(), SystemCallError>, bool))
    ensures
        r == if planned is Err {
            (Err::<(), _>(space::building_reported(planned->Err_0)), false)
        } else if !funded {
            (Err(SystemCallError::OutOfMemory), true)
        } else if completed is Err {
            (Err(space::building_reported(completed->Err_0)), false)
        } else {
            (Ok(()), false)
        },
{
    match planned {
        Err(error) => {
            return (Err(space::map_building_error(error)), false);
        },
        Ok(_) => {},
    }
    if !funded {
        return (Err(SystemCallError::OutOfMemory), true);
    }
    match completed {
        Err(error) => (Err(space::map_building_error(error)), false),
        Ok(_) => (Ok(()), false),
    }
}

/// Whether `len` bytes may be written at a time, where `max` is the most.
pub fn check_write(len: usize, max: usize) -> (r: Result<(), SystemCallError>)
    ensures
        r == if len > max {
            Err::<(), _>(SystemCallError::IllegalArgument)
        } else {
            Ok(())
        },
{
    if len > max {
        Err(SystemCallError::IllegalArgument)
    } else {
        Ok(())
    }
}

/// Writes `len` bytes at `target` to a process under construction, and says where they go.
/// `room` says whether the bytes could be held, `copied` what reading them from the caller
/// gave, `bound` whether the process has memory; the other arguments are those of
/// [`translation::write_building`]. Nothing is written unless all of it can be.
pub fn write(
    room: bool,
    copied: Result<(), SystemCallError>,
    bound: Result<(), SpaceError>,
    user: UserSpace,
    target: usize,
    len: usize,
    pages: &Vec<Option<PageMapping>>,
) -> (r: Result<Vec<BuildingChunk>, SystemCallError>)
    requires
        target + len <= user.top ==> pages@.len() == translation::touched(
            target as int,
            len as int,
        ),
        forall|k: int|
            0 <= k < pages@.len() && (#[trigger] pages@[k]) is Some ==> (pages@[k]->0.ppn + 1)
                * PAGE_SIZE <= usize::MAX,
    ensures
        ({
            let reached = target + len <= user.top && forall|k: int|
                0 <= k < pages@.len() ==> translation::user_page(#[trigger] pages@[k]);
            match r {
                Err(error) => {
                    &&& error == if !room {
                        SystemCallError::OutOfMemory
                    } else if copied is Err {
                        copied->Err_0
                    } else if bound is Err {
                        space::building_reported(bound->Err_0)
                    } else {
                        space::building_reported(SpaceError::BadSegment)
                    }
                    &&& !room || copied is Err || bound is Err || !reached
                },
                Ok(chunks) => {
                    &&& room && copied is Ok && bound is Ok && reached
                    &&& chunks@.len() == pages@.len()
                    &&& forall|k: int|
                        0 <= k < chunks@.len() ==> (#[trigger] chunks@[k])
                            == translation::building_chunk(
                            target as int,
                            len as int,
                            pages@[k]->0,
                            k,
                        )
                },
            }
        }),
{
    if !room {
        return Err(SystemCallError::OutOfMemory);
    }
    match copied {
        Err(error) => {
            return Err(error);
        },
        Ok(_) => {},
    }
    match bound {
        Err(error) => {
            return Err(space::map_building_error(error));
        },
        Ok(_) => {},
    }
    match translation::write_building(user, target, len, pages) {
        Err(error) => Err(space::map_building_error(error)),
        Ok(chunks) => Ok(chunks),
    }
}

/// Attaches a thread to a process under construction: `context` is whether its address
/// space admits the start context, `built` the thread or why it could not be built,
/// `room` whether the table of threads can grow. If the process has begun to go down
/// meanwhile, the thread is handed back to be dropped.
pub fn attach(
    lifecycle: &mut Lifecycle,
    context: Result<(), SpaceError>,
    built: Result<u64, AttachFault>,
    room: bool,
) -> (r: Result<(Tid, Option<u64>), SystemCallError>)
    requires
        old(lifecycle).wf(),
        context is Ok && built is Ok ==> old(lifecycle)@.next_tid < u64::MAX,
        old(lifecycle)@.building_ops > 0,
    ensures
        final(lifecycle).wf(),
        r == if context is Err {
            Err::<(Tid, Option<u64>), _>(space::building_reported(context->Err_0))
        } else if old(lifecycle)@.state is Terminating {
            match built {
                Err(fault) => Err(thread::attach_reported(fault)),
                Ok(thread) => Ok((old(lifecycle)@.next_tid, Some(thread))),
            }
        } else {
            match Lifecycle::attach_result(old(lifecycle)@, built, room) {
                Err(fault) => Err(thread::attach_reported(fault)),
                Ok(tid) => Ok((tid, None)),
            }
        },
        r is Err ==> final(lifecycle)@ == old(lifecycle)@,
        r matches Ok((tid, retired)) ==> final(lifecycle)@ == if retired is Some {
            LifecycleView { next_tid: (tid + 1) as u64, ..old(lifecycle)@ }
        } else {
            LifecycleView {
                next_tid: (tid + 1) as u64,
                members: old(lifecycle)@.members.push(
                    lifecycle::MemberEntry {
                        tid,
                        state: lifecycle::ThreadState::Staging { thread: built->Ok_0 },
                    },
                ),
                ..old(lifecycle)@
            }
        },
{
    match context {
        Err(error) => {
            return Err(space::map_building_error(error));
        },
        Ok(_) => {},
    }
    match lifecycle.attach_registered_member(built, room) {
        Err(fault) => Err(thread::map_attach_fault(fault)),
        Ok(attached) => Ok(attached),
    }
}

/// Reads which handles are to be granted: `count` of them, where `max` is the most; `room`
/// says whether they can be listed, `copied` what reading them from the caller gave.
pub fn check_grant(
    count: usize,
    max: usize,
    room: bool,
    copied: Result<(), SystemCallError>,
) -> (r: Result<(), SystemCallError>)
    ensures
        r == if count == 0 || count > max {
            Err::<(), _>(SystemCallError::IllegalArgument)
        } else if !room {
            Err(SystemCallError::OutOfMemory)
        } else {
            copied
        },
{
    if count == 0 || count > max {
        return Err(SystemCallError::IllegalArgument);
    }
    if !room {
        return Err(SystemCallError::OutOfMemory);
    }
    copied
}

/// Handles that were not granted.
#[derive(Clone, Copy, Debug, PartialEq, Eq, Structural)]
pub struct GrantFailure {
    pub error: SystemCallError,
    /// The caller's entries are to be unpinned.
    pub unpin: bool,
    /// The slots in the table of the process under construction are to be given back.
    pub give_back: bool,
}

/// The first error in a list, at or after `from`.
pub open spec fn first_error(
    results: Seq<Result<(), SystemCallError>>,
    from: int,
) -> Option<SystemCallError>
    decreases results.len() - from,
{
    if from >= results.len() {
        None
    } else {
        match results[from] {
            Err(error) => Some(error),
            Ok(_) => first_error(results, from + 1),
        }
    }
}

/// How granting handles fails.
pub open spec fn grant_failure(
    pinned: Result<(), TableError>,
    slots: Result<(), TableError>,
    room: bool,
    delivered: Seq<Result<(), SystemCallError>>,
) -> Option<GrantFailure> {
    if pinned is Err {
        Some(
            GrantFailure {
                error: handle::reported(pinned->Err_0),
                unpin: false,
                give_back: false,
            },
        )
    } else if slots is Err {
        Some(
            GrantFailure {
                error: handle::reported(slots->Err_0),
                unpin: true,
                give_back: false,
            },
        )
    } else if !room {
        Some(
            GrantFailure { error: SystemCallError::OutOfMemory, unpin: true, give_back: true },
        )
    } else {
        match first_error(delivered, 0) {
            Some(error) => Some(GrantFailure { error, unpin: true, give_back: true }),
            None => None,
        }
    }
}

/// Moves handles into a process under construction: `pinned` is what pinning the caller's
/// entries gave, all or none; `slots` what reserving slots for them in the other table gave,
/// `room` whether the moved entries can be listed, `delivered` what writing each new handle
/// to the caller gave. No entry has left the caller's table until everything that can fail
/// is done: on success the pinned entries are to be moved, on a failure none is.
pub fn grant(
    pinned: Result<(), TableError>,
    slots: Result<(), TableError>,
    room: bool,
    delivered: &Vec<Result<(), SystemCallError>>,
) -> (r: Result<(), GrantFailure>)
    ensures
        r == match grant_failure(pinned, slots, room, delivered@) {
            Some(failure) => Err(failure),
            None => Ok::<(), GrantFailure>(()),
        },
{
    match pinned {
        Err(error) => {
            return Err(
                GrantFailure { error: handle::map_error(error), unpin: false, give_back: false },
            );
        },
        Ok(_) => {},
    }
    match slots {
        Err(error) => {
            return Err(
                GrantFailure { error: handle::map_error(error), unpin: true, give_back: false },
            );
        },
        Ok(_) => {},
    }
    if !room {
        return Err(
            GrantFailure { error: SystemCallError::OutOfMemory, unpin: true, give_back: true },
        );
    }
    let mut index: usize = 0;
    while index < delivered.len()
        invariant
            pinned is Ok,
            slots is Ok,
            room,
            index <= delivered@.len(),
            first_error(delivered@, 0) == first_error(delivered@, index as int),
        decreases delivered@.len() - index,
    {
        match delivered[index] {
            Err(error) => {
                return Err(GrantFailure { error, unpin: true, give_back: true });
            },
            Ok(_) => {},
        }
        index = index + 1;
    }
    Ok(())
}

/// A grant that fails holds nothing back: whatever was pinned is unpinned, and whatever was
/// reserved is given back.
pub proof fn failed_grant_leaves_nothing(
    pinned: Result<(), TableError>,
    slots: Result<(), TableError>,
    room: bool,
    delivered: Seq<Result<(), SystemCallError>>,
)
    requires
        grant_failure(pinned, slots, room, delivered) is Some,
    ensures
        grant_failure(pinned, slots, room, delivered)->0.unpin == (pinned is Ok),
        grant_failure(pinned, slots, room, delivered)->0.give_back == (pinned is Ok && slots is Ok),
{
}

/// What the caller's number asks for, where `base` and `double` are the numbers of the
/// two profiles.
pub fn parse_profile(profile: usize, base: usize, double: usize) -> (r: Result<
    IsaRequirement,
    SystemCallError,
>)
    ensures
        r == if profile == base {
            Ok::<_, SystemCallError>(IsaRequirement::Base64)
        } else if profile == double {
            Ok(IsaRequirement::D64)
        } else {
            Err(SystemCallError::IllegalArgument)
        },
{
    if profile == base {
        Ok(IsaRequirement::Base64)
    } else if profile == double {
        Ok(IsaRequirement::D64)
    } else {
        Err(SystemCallError::IllegalArgument)
    }
}

/// How starting a process ended.
pub struct StartEnd {
    /// The threads to queue, or why the process was not started.
    pub result: Result<Vec<u64>, SystemCallError>,
    /// The builder's entry is to be unpinned.
    pub unpin: bool,
    /// The places in the ready queue are to be given back.
    pub return_batch: bool,
}

/// Starts a process of job `j`. `bound` says whether its address space is bound,
/// `domain` whether some hart can execute it, `threads` how many threads it had when
/// places in the ready queue were reserved; `room` whether the threads can be listed;
/// `pinned` what pinning the builder's entry gave; `batch` whether the places could be
/// reserved. The seals above the process are checked and the process is started in one
/// step, after everything else that can fail.
pub fn start(
    tree: &JobTree,
    j: usize,
    lifecycle: &mut Lifecycle,
    bound: bool,
    domain: bool,
    threads: usize,
    room: bool,
    pinned: Result<(), TableError>,
    batch: bool,
    chain_room: usize,
    lock_room: bool,
) -> (r: StartEnd)
    requires
        tree.wf(),
        j < tree@.jobs.len(),
        old(lifecycle).wf(),
        bound && domain && room && pinned is Ok && batch && tree@.gate(
            j as int,
            chain_room as int,
            lock_room,
        ) is Ok && old(lifecycle)@.state is Building && threads > 0
            && old(lifecycle)@.members.len() == threads ==> old(lifecycle)@.building_ops > 0
            && old(lifecycle)@.execution_sequence < u64::MAX,
    ensures
        final(lifecycle).wf(),
        ({
            let gate = tree@.gate(j as int, chain_room as int, lock_room);
            let members = old(lifecycle)@.members;
            let fails = |error: SystemCallError, unpin: bool, return_batch: bool|
                r.result == Err::<Vec<u64>, _>(error) && r.unpin == unpin && r.return_batch
                    == return_batch;
            if !bound {
                fails(SystemCallError::ObjectNotAvailable, false, false)
            } else if !domain {
                fails(SystemCallError::NotSupported, false, false)
            } else if threads == 0 {
                fails(SystemCallError::ObjectNotAvailable, false, false)
            } else if !room {
                fails(SystemCallError::OutOfMemory, false, false)
            } else if pinned is Err {
                fails(handle::reported(pinned->Err_0), false, false)
            } else if !batch {
                fails(SystemCallError::OutOfMemory, true, false)
            } else if gate is Err {
                fails(gate->Err_0, true, true)
            } else if !(old(lifecycle)@.state is Building) || members.len() == 0 {
                fails(SystemCallError::ObjectClosed, true, true)
            } else if members.len() != threads {
                fails(SystemCallError::ObjectBusy, true, true)
            } else {
                &&& r.result is Ok
                &&& r.result->Ok_0@ == lifecycle::staged_threads(members)
                &&& !r.unpin
                &&& !r.return_batch
            }
        }),
        r.result is Err ==> final(lifecycle)@ == old(lifecycle)@,
        r.result is Ok ==> final(lifecycle)@ == (LifecycleView {
            state: ProcessState::Running,
            building_ops: (old(lifecycle)@.building_ops - 1) as usize,
            members: lifecycle::all_ready(old(lifecycle)@.members),
            ..old(lifecycle)@.advanced()
        }),
{
    if !bound {
        return StartEnd {
            result: Err(SystemCallError::ObjectNotAvailable),
            unpin: false,
            return_batch: false,
        };
    }
    if !domain {
        return StartEnd {
            result: Err(SystemCallError::NotSupported),
            unpin: false,
            return_batch: false,
        };
    }
    if threads == 0 {
        return StartEnd {
            result: Err(SystemCallError::ObjectNotAvailable),
            unpin: false,
            return_batch: false,
        };
    }
    if !room {
        return StartEnd {
            result: Err(SystemCallError::OutOfMemory),
            unpin: false,
            return_batch: false,
        };
    }
    match pinned {
        Err(error) => {
            return StartEnd {
                result: Err(handle::map_error(error)),
                unpin: false,
                return_batch: false,
            };
        },
        Ok(_) => {},
    }
    if !batch {
        return StartEnd {
            result: Err(SystemCallError::OutOfMemory),
            unpin: true,
            return_batch: false,
        };
    }
    let mut staged: Vec<u64> = Vec::new();
    match tree.start_commit_gate(j, chain_room, lock_room, lifecycle, threads, &mut staged) {
        Err(error) => StartEnd { result: Err(error), unpin: true, return_batch: true },
        Ok(_) => {
            assert(staged@ =~= lifecycle::staged_threads(old(lifecycle)@.members));
            StartEnd { result: Ok(staged), unpin: false, return_batch: false }
        },
    }
}

/// What is left to do once all waits of a process that is going down are cancelled.
pub struct TerminationRest {
    /// Threads that never ran, to drop.
    pub dropped: Vec<u64>,
    /// Harts to interrupt.
    pub ipi_slots: u64,
    /// The process can be reaped.
    pub reapable: bool,
}

/// The threads that never ran.
pub open spec fn never_ran(members: Seq<lifecycle::MemberEntry>) -> Seq<u64>
    decreases members.len(),
{
    if members.len() == 0 {
        Seq::empty()
    } else if members[0].state is Staging {
        seq![members[0].state->thread] + never_ran(members.drop_first())
    } else {
        never_ran(members.drop_first())
    }
}

/// The threads that did run.
pub open spec fn ran(members: Seq<lifecycle::MemberEntry>) -> Seq<lifecycle::MemberEntry>
    decreases members.len(),
{
    if members.len() == 0 {
        Seq::empty()
    } else if members[0].state is Staging {
        ran(members.drop_first())
    } else {
        seq![members[0]] + ran(members.drop_first())
    }
}

/// Taking the first thread that never ran out takes it off the front of all of them, and
/// leaves those that ran.
proof fn first_never_ran(members: Seq<lifecycle::MemberEntry>, from: int)
    requires
        0 <= from <= members.len(),
    ensures
        ({
            let first = lifecycle::first_staging(members, from);
            let rest = members.skip(from);
            &&& from <= first <= members.len()
            &&& if first < members.len() {
                &&& never_ran(rest) == seq![members[first].state->thread] + never_ran(
                    rest.remove(first - from),
                )
                &&& ran(rest) == ran(rest.remove(first - from))
            } else {
                never_ran(rest).len() == 0 && ran(rest) == rest
            }
        }),
    decreases members.len() - from,
{
    let rest = members.skip(from);
    let first = lifecycle::first_staging(members, from);
    if from < members.len() {
        assert(rest.drop_first() =~= members.skip(from + 1));
        assert(rest[0] == members[from]);
        if members[from].state is Staging {
            assert(rest.remove(0) =~= rest.drop_first());
        } else {
            first_never_ran(members, from + 1);
            let tail = members.skip(from + 1);
            if first < members.len() {
                let removed = rest.remove(first - from);
                assert(removed[0] == rest[0]);
                assert(removed.drop_first() =~= tail.remove(first - (from + 1)));
            } else {
                assert(ran(rest) =~= rest);
            }
        }
    } else {
        assert(rest =~= Seq::empty());
    }
}

/// Finishes taking a process down, once all its waits are cancelled: threads that never
/// ran are taken out and dropped, which may be what makes the process reapable.
pub fn run_termination_todo(lifecycle: &mut Lifecycle, todo: TerminationTodo) -> (r:
    TerminationRest)
    requires
        old(lifecycle).wf(),
        old(lifecycle)@.terminating(),
    ensures
        final(lifecycle).wf(),
        final(lifecycle)@ == (LifecycleView {
            members: ran(old(lifecycle)@.members),
            ..old(lifecycle)@
        }),
        r.dropped@ == never_ran(old(lifecycle)@.members),
        r.ipi_slots == todo.ipi_slots,
        r.reapable == (todo.reapable || final(lifecycle)@.reapable()),
{
    let mut dropped: Vec<u64> = Vec::new();
    let ghost before = lifecycle@;
    proof {
        assert(before.members.skip(0) =~= before.members);
    }
    loop
        invariant_except_break
            lifecycle.wf(),
            dropped@ + never_ran(lifecycle@.members) == never_ran(before.members),
            ran(lifecycle@.members) == ran(before.members),
            lifecycle@ == (LifecycleView { members: lifecycle@.members, ..before }),
        ensures
            lifecycle.wf(),
            dropped@ == never_ran(before.members),
            lifecycle@ == (LifecycleView { members: ran(before.members), ..before }),
        decreases lifecycle@.members.len(),
    {
        let ghost members = lifecycle@.members;
        let ghost sofar = dropped@;
        proof {
            first_never_ran(members, 0);
            assert(members.skip(0) =~= members);
        }
        match lifecycle.take_first_staging() {
            Some(thread) => {
                let ghost first = lifecycle::first_staging(members, 0);
                assert(lifecycle@.members == members.remove(first));
                dropped.push(thread);
                assert(dropped@ == sofar.push(members[first].state->thread));
                assert(sofar + never_ran(members) =~= dropped@ + never_ran(lifecycle@.members));
            },
            None => {
                assert(sofar + never_ran(members) =~= sofar);
                break ;
            },
        }
    }
    let reapable: bool = todo.reapable || lifecycle.is_reapable();
    TerminationRest { dropped, ipi_slots: todo.ipi_slots, reapable }
}

/// What a departed thread leaves to do: take the process down if it was the last one to
/// leave by itself, else publish that the process can be reaped, if it can.
#[derive(Clone, Copy, Debug, PartialEq, Eq, Structural)]
pub enum DepartureEnd {
    Terminate(TerminationTodo),
    PublishReapable,
    Nothing,
}

/// Decides what a departed thread leaves to do, where `termination` is what its
/// departure started, and `reapable` whether everyone has left.
pub fn confirm_departure(termination: Option<TerminationTodo>, reapable: bool) -> (r:
    DepartureEnd)
    ensures
        r == match termination {
            Some(todo) => DepartureEnd::Terminate(todo),
            None => if reapable {
                DepartureEnd::PublishReapable
            } else {
                DepartureEnd::Nothing
            },
        },
{
    match termination {
        Some(todo) => DepartureEnd::Terminate(todo),
        None => if reapable {
            DepartureEnd::PublishReapable
        } else {
            DepartureEnd::Nothing
        },
    }
}

/// Tells what becomes of a process: `found` is what the lookup of its control with the
/// right to read gave, `living` the living process's own account, `writable` and
/// `delivered` what checking and writing the result gave.
pub fn query(
    control: &ProcessControl,
    found: Result<ProcessHandleEntry, TableError>,
    pid: Pid,
    parent_pid: Pid,
    living: &Lifecycle,
    writable: Result<(), SystemCallError>,
    delivered: Result<(), SystemCallError>,
) -> (r: Result<ProcessSnapshot, SystemCallError>)
    ensures
        ({
            let resolved = handle::resolve_result(
                found,
                ObjectKind::ProcessControl,
                HandleRole::ProcessControl,
            );
            r == if resolved is Err {
                Err::<ProcessSnapshot, _>(resolved->Err_0)
            } else if writable is Err {
                Err(writable->Err_0)
            } else if delivered is Err {
                Err(delivered->Err_0)
            } else {
                Ok(
                    match control@.dead {
                        Some(dead) => ProcessSnapshot {
                            pid: dead.pid,
                            parent_pid: dead.parent_pid,
                            state: ProcessState::Dead,
                            reason: dead.reason,
                            code: dead.code,
                        },
                        None => ProcessSnapshot {
                            pid,
                            parent_pid,
                            state: living@.state,
                            reason: living@.reason,
                            code: living@.code,
                        },
                    },
                )
            }
        }),
{
    match handle::resolve(found, ObjectKind::ProcessControl, HandleRole::ProcessControl) {
        Err(error) => {
            return Err(error);
        },
        Ok(_) => {},
    }
    let snapshot = control.snapshot(pid, parent_pid, living.snapshot());
    match writable {
        Err(error) => {
            return Err(error);
        },
        Ok(_) => {},
    }
    match delivered {
        Err(error) => Err(error),
        Ok(_) => Ok(snapshot),
    }
}

/// Whether the caller of a kill survives it.
#[derive(Clone, Copy, Debug, PartialEq, Eq, Structural)]
pub enum KillOutcome {
    Accepted,
    TerminatedCaller,
}

/// Kills a process. `found` is what the lookup of its control with the right to manage
/// gave; `alive` whether the process is still there; `caller` the calling thread and
/// its hart if it is one of the process's own. Killing a process that is gone, or going
/// down, succeeds and changes nothing.
pub fn kill(
    lifecycle: &mut Lifecycle,
    found: Result<ProcessHandleEntry, TableError>,
    alive: bool,
    caller: Option<(Tid, usize)>,
    code: i64,
) -> (r: Result<(KillOutcome, Option<TerminationTodo>), SystemCallError>)
    requires
        old(lifecycle).wf(),
        alive && !old(lifecycle)@.terminating() && handle::resolve_result(
            found,
            ObjectKind::ProcessControl,
            HandleRole::ProcessControl,
        ) is Ok ==> {
            &&& old(lifecycle)@.execution_sequence < u64::MAX
            &&& caller matches Some((tid, slot)) ==> slot < lifecycle::HART_SLOTS
                && old(lifecycle)@.is_member(tid) && forall|i: int| #[trigger]
                old(lifecycle)@.at(tid, i) ==> old(lifecycle)@.members[i].state is Running
        },
    ensures
        final(lifecycle).wf(),
        ({
            let resolved = handle::resolve_result(
                found,
                ObjectKind::ProcessControl,
                HandleRole::ProcessControl,
            );
            if resolved is Err {
                r == Err::<(KillOutcome, Option<TerminationTodo>), _>(resolved->Err_0)
                    && final(lifecycle)@ == old(lifecycle)@
            } else if !alive {
                r == Ok::<_, SystemCallError>((KillOutcome::Accepted, None::<TerminationTodo>))
                    && final(lifecycle)@ == old(lifecycle)@
            } else {
                &&& r is Ok
                &&& r->Ok_0.0 == if caller is Some {
                    KillOutcome::TerminatedCaller
                } else {
                    KillOutcome::Accepted
                }
                &&& r->Ok_0.1 is Some
                &&& old(lifecycle)@.taken_down(
                    final(lifecycle)@,
                    r->Ok_0.1->0,
                    ProcessExitReason::Killed,
                    code,
                    caller,
                )
            }
        }),
{
    match handle::resolve(found, ObjectKind::ProcessControl, HandleRole::ProcessControl) {
        Err(error) => {
            return Err(error);
        },
        Ok(_) => {},
    }
    if !alive {
        return Ok((KillOutcome::Accepted, None));
    }
    let todo = lifecycle.request_termination(ProcessExitReason::Killed, code, caller);
    let outcome = match caller {
        Some(_) => KillOutcome::TerminatedCaller,
        None => KillOutcome::Accepted,
    };
    Ok((outcome, Some(todo)))
}

/// What a drain call does next.
#[derive(Clone, Copy, Debug, PartialEq, Eq, Structural)]
pub enum DrainStart {
    /// The process is gone; tell the caller so.
    Answer(ProcessDrainResult),
    /// Drain at most this much.
    Batch(usize),
}

/// Admits a drain call. `writable` says whether its result can be written, which is
/// settled before anything is done; `found` is what the lookup of the control with the
/// right to manage gave; `alive` whether the process is still there; `gate` whether no
/// other call drains it; `max` the most that one call may do.
pub fn drain_start(
    control: &ProcessControl,
    max_work: u32,
    max: u32,
    writable: Result<(), SystemCallError>,
    found: Result<ProcessHandleEntry, TableError>,
    alive: bool,
    gate: bool,
) -> (r: Result<DrainStart, SystemCallError>)
    ensures
        ({
            let resolved = handle::resolve_result(
                found,
                ObjectKind::ProcessControl,
                HandleRole::ProcessControl,
            );
            r == if max_work == 0 {
                Err::<DrainStart, _>(SystemCallError::IllegalArgument)
            } else if writable is Err {
                Err(writable->Err_0)
            } else if resolved is Err {
                Err(resolved->Err_0)
            } else if !alive || control@.dead is Some {
                Ok(DrainStart::Answer(ProcessDrainResult { work_done: 0, complete: true }))
            } else if control@.wait.signals & signals::REAPABLE != signals::REAPABLE {
                Err(SystemCallError::ObjectNotAvailable)
            } else if !gate {
                Err(SystemCallError::ObjectBusy)
            } else {
                Ok(
                    DrainStart::Batch(
                        if max_work < max {
                            max_work as usize
                        } else {
                            max as usize
                        },
                    ),
                )
            }
        }),
{
    if max_work == 0 {
        return Err(SystemCallError::IllegalArgument);
    }
    match writable {
        Err(error) => {
            return Err(error);
        },
        Ok(_) => {},
    }
    match handle::resolve(found, ObjectKind::ProcessControl, HandleRole::ProcessControl) {
        Err(error) => {
            return Err(error);
        },
        Ok(_) => {},
    }
    if !alive || control.is_dead() {
        return Ok(DrainStart::Answer(ProcessDrainResult { work_done: 0, complete: true }));
    }
    if !signals::contains(control.signals(), signals::REAPABLE) {
        return Err(SystemCallError::ObjectNotAvailable);
    }
    if !gate {
        return Err(SystemCallError::ObjectBusy);
    }
    let budget: u32 = if max_work < max {
        max_work
    } else {
        max
    };
    Ok(DrainStart::Batch(budget as usize))
}

/// Ends a batch that did `work`. Only a batch that completes the drain declares the
/// process dead: first its control shows the end, then the process itself is dead, then
/// it leaves job `j`, which may be complete with that.
pub fn drain_end(
    control: &mut ProcessControl,
    lifecycle: &mut Lifecycle,
    tree: &mut JobTree,
    j: usize,
    pid: Pid,
    parent_pid: Pid,
    work: u32,
    complete: bool,
) -> (r: (ProcessDrainResult, Option<CompletionCursor>))
    requires
        old(control).wf(),
        old(lifecycle).wf(),
        old(tree).wf(),
        j < old(tree)@.jobs.len(),
        old(tree)@.jobs[j as int].members.entry(pid) matches Some(Entry::Live(_)),
    ensures
        final(control).wf(),
        final(lifecycle).wf(),
        final(tree).wf(),
        r.0 == (ProcessDrainResult { work_done: work, complete }),
        !complete ==> final(control)@ == old(control)@ && final(lifecycle)@ == old(lifecycle)@
            && final(tree)@ == old(tree)@ && r.1 is None,
        complete ==> {
            let rest = job::JobView {
                members: old(tree)@.jobs[j as int].members.removed(pid),
                ..old(tree)@.jobs[j as int]
            };
            &&& final(lifecycle)@ == (LifecycleView {
                state: ProcessState::Dead,
                ..old(lifecycle)@
            })
            &&& final(control)@ == if old(control)@.dead is Some {
                old(control)@
            } else {
                ControlView {
                    dead: Some(
                        DeadSnapshot {
                            pid,
                            parent_pid,
                            reason: old(lifecycle)@.reason,
                            code: old(lifecycle)@.code,
                        },
                    ),
                    wait: old(control)@.wait.updated(signals::REAPABLE, signals::CLOSED),
                    ..old(control)@
                }
            }
            &&& final(control)@.dead is Some
            &&& final(control)@.wait.signals == signals::CLOSED
            &&& final(tree)@ == (TreeView {
                jobs: old(tree)@.jobs.update(j as int, rest.settled()),
                ..old(tree)@
            })
            &&& r.1 == if rest.ready() {
                Some(CompletionCursor { child: j, published: false })
            } else {
                None
            }
            &&& r.1 matches Some(cursor) ==> cursor.on(final(tree)@)
        },
{
    let result = ProcessDrainResult { work_done: work, complete };
    if !complete {
        return (result, None);
    }
    let (_, reason, code) = lifecycle.snapshot();
    control.publish_dead(DeadSnapshot { pid, parent_pid, reason, code });
    lifecycle.mark_dead();
    let cursor = tree.remove_member(j, pid);
    (result, cursor)
}

/// A process is never shown as gone and as reapable at once.
pub proof fn gone_is_not_reapable(control: ControlView)
    requires
        control.wf(),
        control.dead is Some,
    ensures
        !signals::meets(control.wait.signals, signals::REAPABLE),
        signals::closed(control.wait.signals),
{
    assert(0x100u64 & 0x40 == 0 && 0x100u64 & 0x100 != 0) by (bit_vector);
}

/// The first error is the one that counts; without an error there is none.
pub proof fn first_error_counts(results: Seq<Result<(), SystemCallError>>, from: int)
    requires
        0 <= from,
    ensures
        match first_error(results, from) {
            Some(error) => exists|i: int|
                {
                    &&& from <= i < results.len()
                    &&& (#[trigger] results[i]) == Err::<(), _>(error)
                    &&& forall|j: int| from <= j < i ==> (#[trigger] results[j]) is Ok
                },
            None => forall|j: int| from <= j < results.len() ==> (#[trigger] results[j]) is Ok,
        },
    decreases results.len() - from,
{
    if from < results.len() {
        first_error_counts(results, from + 1);
        if results[from] is Ok && first_error(results, from + 1) is Some {
            let error = first_error(results, from + 1)->0;
            let i = choose|i: int|
                {
                    &&& from + 1 <= i < results.len()
                    &&& (#[trigger] results[i]) == Err::<(), _>(error)
                    &&& forall|j: int| from + 1 <= j < i ==> (#[trigger] results[j]) is Ok
                };
            assert(results[i] == Err::<(), _>(error));
        } else if results[from] is Err {
            assert(results[from] == Err::<(), _>(first_error(results, from)->0));
        }
    }
}

/// Granting handles succeeds exactly if all of its steps do, and a failure tells of the first one
/// that did not.
pub proof fn granting_fails_at_the_first_fault(
    pinned: Result<(), TableError>,
    slots: Result<(), TableError>,
    room: bool,
    delivered: Seq<Result<(), SystemCallError>>,
)
    ensures
        grant_failure(pinned, slots, room, delivered) is None <==> pinned is Ok && slots is Ok && room
            && forall|i: int| 0 <= i < delivered.len() ==> (#[trigger] delivered[i]) is Ok,
        pinned is Err ==> grant_failure(pinned, slots, room, delivered)->0.error
            == handle::reported(pinned->Err_0),
        pinned is Ok && slots is Err ==> grant_failure(pinned, slots, room, delivered)->0.error
            == handle::reported(slots->Err_0),
        pinned is Ok && slots is Ok && !room ==> grant_failure(
            pinned,
            slots,
            room,
            delivered,
        )->0.error == SystemCallError::OutOfMemory,
{
    first_error_counts(delivered, 0);
}

/// Every thread of a table either ran or never did: the two lists together are as long as the
/// table, each keeps the table's order, and a thread is in the one that its state says.
pub proof fn threads_ran_or_never_did(members: Seq<lifecycle::MemberEntry>)
    ensures
        ran(members).len() + never_ran(members).len() == members.len(),
        forall|k: int|
            0 <= k < ran(members).len() ==> !((#[trigger] ran(members)[k]).state is Staging)
                && members.contains(ran(members)[k]),
        forall|i: int|
            0 <= i < members.len() ==> if (#[trigger] members[i]).state is Staging {
                never_ran(members).contains(members[i].state->thread)
            } else {
                ran(members).contains(members[i])
            },
    decreases members.len(),
{
    if members.len() > 0 {
        let rest = members.drop_first();
        threads_ran_or_never_did(rest);
        assert forall|k: int| 0 <= k < ran(members).len() implies !((#[trigger] ran(
            members,
        )[k]).state is Staging) && members.contains(ran(members)[k]) by {
            let at = if members[0].state is Staging {
                k
            } else {
                k - 1
            };
            if at >= 0 {
                assert(ran(members)[k] == ran(rest)[at]);
                let j = choose|j: int| 0 <= j < rest.len() && rest[j] == ran(rest)[at];
                assert(members[j + 1] == ran(members)[k]);
            } else {
                assert(members[0] == ran(members)[k]);
            }
        }
        assert forall|i: int| 0 <= i < members.len() implies if (
        #[trigger] members[i]).state is Staging {
            never_ran(members).contains(members[i].state->thread)
        } else {
            ran(members).contains(members[i])
        } by {
            let front: int = if members[0].state is Staging {
                1
            } else {
                0
            };
            if i == 0 {
                if front == 1 {
                    assert(never_ran(members)[0] == members[0].state->thread);
                } else {
                    assert(ran(members)[0] == members[0]);
                }
            } else {
                assert(rest[i - 1] == members[i]);
                if members[i].state is Staging {
                    let thread = members[i].state->thread;
                    let j = choose|j: int|
                        0 <= j < never_ran(rest).len() && never_ran(rest)[j] == thread;
                    assert(never_ran(members)[j + front] == thread);
                } else {
                    let j = choose|j: int| 0 <= j < ran(rest).len() && ran(rest)[j] == members[i];
                    assert(ran(members)[j + 1 - front] == members[i]);
                }
            }
        }
    }
}

} // verus!
