//! Threads: the observer of a thread's end, when a thread's departure is final, and
//! how threads are created in a running process.
use vstd::prelude::*;

use crate::error::SystemCallError;
use crate::execution::ThreadStartContext;
use crate::handle;
use crate::handle::{ProcessHandleEntry, TableError};
use crate::lifecycle;
use crate::lifecycle::{
    AttachFault, Lifecycle, LifecycleView, MemberEntry, ProcessExitReason, TerminationTodo,
    ThreadState, Tid, HART_SLOTS,
};
use crate::notify_work::Reservation;
use crate::object::{HandleRole, Koid, ObjectKind, ObjectWaitState, WaitView};
use crate::rights;
use crate::signals;
use crate::signals::ObjectSignals;
use crate::space;
use crate::space::SpaceError;

verus! {

/// The object through which the end of a thread can be observed. Closing a handle to
/// it does not touch the thread.
pub struct ThreadControl {
    wait: ObjectWaitState,
}

impl ThreadControl {
    pub closed spec fn view(&self) -> WaitView {
        self.wait@
    }

    pub closed spec fn wf(&self) -> bool {
        self.wait.wf()
    }

    pub fn new() -> (r: ThreadControl)
        ensures
            r.wf(),
            r@ == WaitView::fresh(signals::NONE),
    {
        ThreadControl { wait: ObjectWaitState::new(signals::NONE) }
    }

    /// The levels shown.
    pub fn signals(&self) -> (r: ObjectSignals)
        ensures
            r == self@.signals,
    {
        self.wait.signals()
    }

    /// Its observers.
    pub fn observers(&mut self) -> (r: &mut ObjectWaitState)
        requires
            old(self).wf(),
        ensures
            r.wf(),
            r@ == old(self)@,
            final(self)@ == final(r)@,
            final(r).wf() ==> final(self).wf(),
    {
        &mut self.wait
    }

    /// Shows for good that the thread is done; whoever waits for it is to be told.
    pub fn publish_done(&mut self) -> (r: Option<(Reservation, Koid)>)
        requires
            old(self).wf(),
        ensures
            final(self).wf(),
            r == old(self)@.updated(signals::NONE, signals::DONE).news(),
            final(self)@ == old(self)@.updated(signals::NONE, signals::DONE).queued(),
    {
        self.wait.update(signals::NONE, signals::DONE);
        self.wait.take_notification()
    }
}

/// How a thread leaves.
#[derive(Clone, Copy, Debug, PartialEq, Eq, Structural)]
pub enum DepartureKind {
    Normal(i64),
    Terminated,
}

impl DepartureKind {
    /// The exit code of a thread that left by itself.
    pub fn normal_code(self) -> (r: Option<i64>)
        ensures
            r == match self {
                DepartureKind::Normal(code) => Some(code),
                DepartureKind::Terminated => None,
            },
    {
        match self {
            DepartureKind::Normal(code) => Some(code),
            DepartureKind::Terminated => None,
        }
    }
}

/// Decides when a thread's departure is final: once it was asked for, and no result
/// that the thread owes is outstanding. That happens exactly once.
#[derive(Clone, Copy, Debug, PartialEq, Eq, Structural)]
pub struct ThreadDeparture {
    /// Results that are still to be delivered on behalf of the thread.
    pub result_obligations: usize,
    pub requested: Option<DepartureKind>,
    /// The departure was declared final.
    pub finalizing: bool,
}

impl ThreadDeparture {
    /// A departure is final only if it was asked for.
    pub open spec fn wf(self) -> bool {
        &&& self.finalizing ==> self.requested is Some
        &&& self.requested is Some && self.result_obligations == 0 ==> self.finalizing
    }

    /// The departure once it is asked for, and how the thread left if that is final.
    pub open spec fn asked_for(self, kind: DepartureKind) -> (
        ThreadDeparture,
        Option<DepartureKind>,
    ) {
        let asked = ThreadDeparture { requested: Some(kind), ..self };
        if self.result_obligations == 0 {
            (ThreadDeparture { finalizing: true, ..asked }, Some(kind))
        } else {
            (asked, None)
        }
    }

    /// The departure once a result that the thread owed is delivered, and how the thread left
    /// if that makes it final.
    pub open spec fn delivered(self) -> (ThreadDeparture, Option<DepartureKind>) {
        let left = ThreadDeparture {
            result_obligations: (self.result_obligations - 1) as usize,
            ..self
        };
        if self.result_obligations == 1 && !self.finalizing && self.requested is Some {
            (ThreadDeparture { finalizing: true, ..left }, self.requested)
        } else {
            (left, None)
        }
    }

    /// The departure once `n` results are delivered.
    pub open spec fn after_results(self, n: nat) -> ThreadDeparture
        decreases n,
    {
        if n == 0 {
            self
        } else {
            self.after_results((n - 1) as nat).delivered().0
        }
    }

    pub fn new() -> (r: ThreadDeparture)
        ensures
            r.wf(),
            r == (ThreadDeparture { result_obligations: 0, requested: None, finalizing: false }),
    {
        ThreadDeparture { result_obligations: 0, requested: None, finalizing: false }
    }

    /// Registers a result that the thread owes.
    pub fn acquire_result(&mut self)
        requires
            old(self).wf(),
            old(self).result_obligations < usize::MAX,
        ensures
            final(self).wf(),
            *final(self) == (ThreadDeparture {
                result_obligations: (old(self).result_obligations + 1) as usize,
                ..*old(self)
            }),
    {
        self.result_obligations = self.result_obligations + 1;
    }

    /// Declares the departure final if it is due.
    fn claim_finalize(&mut self) -> (r: bool)
        ensures
            r == (old(self).requested is Some && old(self).result_obligations == 0 && !old(
                self,
            ).finalizing),
            *final(self) == (ThreadDeparture {
                finalizing: old(self).finalizing || r,
                ..*old(self)
            }),
    {
        if self.requested.is_some() && self.result_obligations == 0 && !self.finalizing {
            self.finalizing = true;
            true
        } else {
            false
        }
    }

    /// Asks for the departure, once. If it is final at once, how the thread left.
    pub fn request(&mut self, kind: DepartureKind) -> (r: Option<DepartureKind>)
        requires
            old(self).wf(),
            old(self).requested is None,
        ensures
            final(self).wf(),
            (*final(self), r) == old(self).asked_for(kind),
    {
        self.requested = Some(kind);
        if self.claim_finalize() {
            Some(kind)
        } else {
            None
        }
    }

    /// A result that the thread owed is delivered. If that makes the departure final,
    /// how the thread left.
    pub fn complete_result(&mut self) -> (r: Option<DepartureKind>)
        requires
            old(self).wf(),
            old(self).result_obligations > 0,
        ensures
            final(self).wf(),
            (*final(self), r) == old(self).delivered(),
    {
        self.result_obligations = self.result_obligations - 1;
        let kind = self.requested;
        if self.claim_finalize() {
            kind
        } else {
            None
        }
    }
}

/// A departure that was asked for becomes final with the very last result that the thread
/// owes, and not before.
pub proof fn departure_waits_for_all_results(departure: ThreadDeparture, n: nat)
    requires
        departure.wf(),
        departure.requested is Some,
        !departure.finalizing,
        n < departure.result_obligations,
    ensures
        !departure.after_results(n).finalizing,
        departure.after_results(n).delivered().1 is Some <==> n + 1
            == departure.result_obligations,
        departure.after_results(n).delivered().1 is Some ==> departure.after_results(
            n,
        ).delivered().1 == departure.requested,
{
    results_count_down(departure, n);
}

/// Each result leaves one fewer to wait for.
proof fn results_count_down(departure: ThreadDeparture, n: nat)
    requires
        departure.requested is Some,
        !departure.finalizing,
        n < departure.result_obligations,
    ensures
        departure.after_results(n) == (ThreadDeparture {
            result_obligations: (departure.result_obligations - n) as usize,
            ..departure
        }),
    decreases n,
{
    if n > 0 {
        results_count_down(departure, (n - 1) as nat);
    }
}

/// Once a departure is final it is not declared so again: no later result does.
pub proof fn departure_is_final_once(departure: ThreadDeparture)
    requires
        departure.wf(),
        departure.finalizing,
        departure.result_obligations > 0,
    ensures
        departure.delivered().1 is None,
        departure.delivered().0.finalizing,
{
}

/// How a failure to attach a thread is reported.
pub fn map_attach_fault(error: AttachFault) -> (r: SystemCallError)
    ensures
        r == attach_reported(error),
{
    match error {
        AttachFault::Closed => SystemCallError::ObjectClosed,
        AttachFault::Limit => SystemCallError::ReachLimit,
        AttachFault::Oom => SystemCallError::OutOfMemory,
    }
}

/// How a failure to attach a thread is reported.
pub open spec fn attach_reported(error: AttachFault) -> SystemCallError {
    match error {
        AttachFault::Closed => SystemCallError::ObjectClosed,
        AttachFault::Limit => SystemCallError::ReachLimit,
        AttachFault::Oom => SystemCallError::OutOfMemory,
    }
}

/// How a start context that the address space does not admit is reported.
pub fn map_context_fault(error: SpaceError) -> (r: SystemCallError)
    ensures
        r == space::building_reported(error),
{
    space::map_building_error(error)
}

/// What creating a thread meets with. Only what is reached counts.
#[derive(Clone, Copy, Debug)]
pub struct SpawnOutcomes {
    /// The start context, as it was read from the caller.
    pub context: Result<ThreadStartContext, SystemCallError>,
    /// What making the object gave through which the thread's end is observed.
    pub made: Result<(), SystemCallError>,
    pub entries_room: bool,
    pub ready_room: bool,
    /// A place in the ready queue could be reserved.
    pub batch: bool,
    /// The handle of the slot that was reserved.
    pub slot: Result<u64, TableError>,
    /// Whether the answer can be written where the caller wants it.
    pub output: Result<(), SystemCallError>,
    /// Whether the address space admits the start context.
    pub admitted: Result<(), SpaceError>,
    /// The thread, or why it could not be built.
    pub built: Result<u64, AttachFault>,
    pub member_room: bool,
    /// What writing the answer gave.
    pub written: Result<(), SystemCallError>,
}

/// A thread that was not created.
#[derive(Clone, Copy, Debug, PartialEq, Eq, Structural)]
pub struct SpawnFailure {
    pub error: SystemCallError,
    /// The place in the ready queue is to be given back.
    pub return_batch: bool,
    /// The slot in the caller's handle table is to be given back.
    pub give_back: bool,
    /// The thread that was built, to be dropped.
    pub dropped: Option<u64>,
    /// What the end of the caller's process leaves to do.
    pub todo: Option<TerminationTodo>,
}

/// A thread that was created. Handle, thread and place in the ready queue are published in
/// this order.
#[derive(Clone, Copy, Debug, PartialEq, Eq, Structural)]
pub struct SpawnedThread {
    /// The handle, and the entry to put behind it.
    pub handle: u64,
    pub entry: ProcessHandleEntry,
    pub tid: Tid,
    /// The thread to queue.
    pub thread: u64,
}

/// The entry through which the end of a thread is observed.
pub open spec fn control_entry(control: Koid) -> ProcessHandleEntry {
    ProcessHandleEntry {
        object: control,
        kind: ObjectKind::ThreadControl,
        role: HandleRole::ThreadControl,
        rights: rights::THREAD_CONTROL,
    }
}

/// Why a thread is not created although nothing is held yet.
pub open spec fn spawn_refusal(o: SpawnOutcomes) -> Option<SystemCallError> {
    if o.context is Err {
        Some(o.context->Err_0)
    } else if (o.context->Ok_0).entry > usize::MAX || (o.context->Ok_0).stack_pointer > usize::MAX {
        Some(SystemCallError::IllegalArgument)
    } else if o.made is Err {
        Some(o.made->Err_0)
    } else if !o.entries_room || !o.ready_room || !o.batch {
        Some(SystemCallError::OutOfMemory)
    } else {
        None
    }
}

/// Why a thread is not created once its slot is reserved, but before it has a number.
pub open spec fn staging_refusal(process: LifecycleView, o: SpawnOutcomes) -> Option<
    SystemCallError,
> {
    let begun = Lifecycle::spawn_result(process, o.built, o.member_room);
    if o.output is Err {
        Some(o.output->Err_0)
    } else if o.admitted is Err {
        Some(space::building_reported(o.admitted->Err_0))
    } else if begun is Err {
        Some(attach_reported(begun->Err_0))
    } else {
        None
    }
}

/// The entry through which the end of a thread is observed.
fn make_control_entry(control: Koid) -> (r: Result<ProcessHandleEntry, SystemCallError>)
    ensures
        r == Ok::<_, SystemCallError>(control_entry(control)),
{
    proof {
        handle::all_rights_may_enter(control, ObjectKind::ThreadControl, HandleRole::ThreadControl);
    }
    match handle::entry(
        control,
        ObjectKind::ThreadControl,
        HandleRole::ThreadControl,
        rights::THREAD_CONTROL,
    ) {
        Err(error) => Err(handle::map_error(error)),
        Ok(entry) => Ok(entry),
    }
}

/// Creates a thread in a running process; `control` is the object through which its end is
/// observed. Everything that can fail comes before anything is published. A caller to whom
/// the answer cannot be written after all, thread `caller` on hart `hart`, ends its process
/// with `code`.
pub fn spawn(
    lifecycle: &mut Lifecycle,
    control: Koid,
    caller: Tid,
    hart: usize,
    code: i64,
    o: &SpawnOutcomes,
) -> (r: Result<SpawnedThread, SpawnFailure>)
    requires
        old(lifecycle).wf(),
        spawn_refusal(*o) is None && o.slot is Ok && staging_refusal(old(lifecycle)@, *o) is None
            ==> {
            &&& old(lifecycle)@.next_tid < u64::MAX
            &&& o.written is Err ==> {
                &&& old(lifecycle)@.execution_sequence < u64::MAX
                &&& hart < HART_SLOTS
                &&& old(lifecycle)@.is_member(caller)
                &&& forall|i: int| #[trigger]
                    old(lifecycle)@.at(caller, i) ==> old(lifecycle)@.members[i].state is Running
            }
        },
    ensures
        final(lifecycle).wf(),
        ({
            let before = old(lifecycle)@;
            let early = spawn_refusal(*o);
            let late = staging_refusal(before, *o);
            let begun = LifecycleView { next_tid: (before.next_tid + 1) as u64, ..before };
            match r {
                Err(failure) => {
                    if early is Some {
                        &&& failure == (SpawnFailure {
                            error: early->0,
                            return_batch: false,
                            give_back: false,
                            dropped: None,
                            todo: None,
                        })
                        &&& final(lifecycle)@ == before
                    } else if o.slot is Err {
                        &&& failure == (SpawnFailure {
                            error: handle::reported(o.slot->Err_0),
                            return_batch: true,
                            give_back: false,
                            dropped: None,
                            todo: None,
                        })
                        &&& final(lifecycle)@ == before
                    } else if late is Some {
                        &&& failure == (SpawnFailure {
                            error: late->0,
                            return_batch: true,
                            give_back: true,
                            dropped: None,
                            todo: None,
                        })
                        &&& final(lifecycle)@ == before
                    } else {
                        &&& o.written is Err
                        &&& failure.todo is Some
                        &&& failure == (SpawnFailure {
                            error: o.written->Err_0,
                            return_batch: true,
                            give_back: true,
                            dropped: Some(o.built->Ok_0),
                            todo: failure.todo,
                        })
                        &&& begun.taken_down(
                            final(lifecycle)@,
                            failure.todo->0,
                            ProcessExitReason::Fault,
                            code,
                            Some((caller, hart)),
                        )
                    }
                },
                Ok(spawned) => {
                    &&& early is None && o.slot is Ok && late is None && o.written is Ok
                    &&& spawned == (SpawnedThread {
                        handle: o.slot->Ok_0,
                        entry: control_entry(control),
                        tid: before.next_tid,
                        thread: o.built->Ok_0,
                    })
                    &&& final(lifecycle)@ == (LifecycleView {
                        members: before.members.push(
                            MemberEntry { tid: before.next_tid, state: ThreadState::Ready },
                        ),
                        ..begun
                    })
                },
            }
        }),
{
    let refused = SpawnFailure {
        error: SystemCallError::OutOfMemory,
        return_batch: false,
        give_back: false,
        dropped: None,
        todo: None,
    };
    let context = match o.context {
        Err(error) => {
            return Err(SpawnFailure { error, ..refused });
        },
        Ok(context) => context,
    };
    if context.entry > usize::MAX as u64 || context.stack_pointer > usize::MAX as u64 {
        return Err(SpawnFailure { error: SystemCallError::IllegalArgument, ..refused });
    }
    match o.made {
        Err(error) => {
            return Err(SpawnFailure { error, ..refused });
        },
        Ok(_) => {},
    }
    let entry = match make_control_entry(control) {
        Err(error) => {
            return Err(SpawnFailure { error, ..refused });
        },
        Ok(entry) => entry,
    };
    if !o.entries_room || !o.ready_room || !o.batch {
        return Err(refused);
    }
    let slot: u64 = match o.slot {
        Err(error) => {
            return Err(
                SpawnFailure { error: handle::map_error(error), return_batch: true, ..refused },
            );
        },
        Ok(slot) => slot,
    };
    let held = SpawnFailure { return_batch: true, give_back: true, ..refused };
    match o.output {
        Err(error) => {
            return Err(SpawnFailure { error, ..held });
        },
        Ok(_) => {},
    }
    match o.admitted {
        Err(error) => {
            return Err(SpawnFailure { error: map_context_fault(error), ..held });
        },
        Ok(_) => {},
    }
    let tid: Tid = match lifecycle.begin_spawn(o.built, o.member_room) {
        Err(fault) => {
            return Err(SpawnFailure { error: map_attach_fault(fault), ..held });
        },
        Ok(tid) => tid,
    };
    proof {
        assert forall|i: int| lifecycle@.at(caller, i) == old(lifecycle)@.at(caller, i) by {}
        if o.written is Err {
            let i = choose|i: int| old(lifecycle)@.at(caller, i);
            assert(lifecycle@.at(caller, i));
        }
    }
    let thread: u64 = match o.built {
        Ok(thread) => thread,
        Err(fault) => {
            return Err(SpawnFailure { error: map_attach_fault(fault), ..held });
        },
    };
    match o.written {
        Err(error) => {
            let todo = lifecycle.request_termination(
                ProcessExitReason::Fault,
                code,
                Some((caller, hart)),
            );
            return Err(
                SpawnFailure { error, dropped: Some(thread), todo: Some(todo), ..held },
            );
        },
        Ok(_) => {},
    }
    lifecycle.commit_spawn(tid);
    Ok(SpawnedThread { handle: slot, entry, tid, thread })
}

/// A thread that is created has a number that no thread of the process had.
pub proof fn spawned_number_is_fresh(
    process: LifecycleView,
    built: Result<u64, AttachFault>,
    room: bool,
)
    requires
        process.wf(),
        Lifecycle::spawn_result(process, built, room) is Ok,
    ensures
        !process.is_member(Lifecycle::spawn_result(process, built, room)->Ok_0),
{
    lifecycle::attached_number_is_fresh(process);
}

/// Asking for a departure fixes how the thread leaves and nothing else; it is final at once
/// exactly if the thread owes no result.
pub proof fn asking_fixes_the_departure(departure: ThreadDeparture, kind: DepartureKind)
    requires
        departure.wf(),
    ensures
        ({
            let (after, left) = departure.asked_for(kind);
            &&& after.requested == Some(kind)
            &&& after.result_obligations == departure.result_obligations
            &&& left is Some <==> departure.result_obligations == 0
            &&& left matches Some(how) ==> how == kind && after.finalizing
            &&& left is None ==> after.finalizing == departure.finalizing
            &&& after.wf()
        }),
{
}

/// Every delivered result is one less to deliver, and none changes how the thread leaves.
pub proof fn each_result_is_one_less(departure: ThreadDeparture, n: nat)
    requires
        n <= departure.result_obligations,
    ensures
        departure.after_results(n).result_obligations == departure.result_obligations - n,
        departure.after_results(n).requested == departure.requested,
        departure.finalizing ==> departure.after_results(n).finalizing,
    decreases n,
{
    if n > 0 {
        each_result_is_one_less(departure, (n - 1) as nat);
    }
}

/// A process that does not take threads is closed, one with all the threads it may have is at its
/// limit, and only want of memory is reported as that.
pub proof fn attach_failures_stay_apart(a: AttachFault, b: AttachFault)
    ensures
        attach_reported(a) == attach_reported(b) ==> a == b,
        attach_reported(a) == SystemCallError::ObjectClosed <==> a is Closed,
        attach_reported(a) == SystemCallError::ReachLimit <==> a is Limit,
{
}

/// Whoever creates a thread can observe its end, duplicate and pass on the handle, and no more;
/// the object grants it.
pub proof fn creators_observe_the_thread(control: Koid)
    ensures
        control_entry(control).object == control,
        handle::entry_result(
            control,
            ObjectKind::ThreadControl,
            HandleRole::ThreadControl,
            control_entry(control).rights,
        ) == Ok::<_, TableError>(control_entry(control)),
        control_entry(control).rights & rights::WAIT != 0,
        control_entry(control).rights & rights::MANAGE == 0,
{
    handle::all_rights_may_enter(control, ObjectKind::ThreadControl, HandleRole::ThreadControl);
    handle::every_right_has_its_roles(ObjectKind::ThreadControl, HandleRole::ThreadControl);
}

/// What stops a thread from being created before anything is held: in this order, a start
/// context that cannot be read, one that names no address, no object to observe it through, no
/// memory. Nothing else does.
pub proof fn creation_stops_at_the_first_fault(o: SpawnOutcomes)
    ensures
        spawn_refusal(o) is None <==> {
            &&& o.context matches Ok(context) && context.entry <= usize::MAX
                && context.stack_pointer <= usize::MAX
            &&& o.made is Ok && o.entries_room && o.ready_room && o.batch
        },
        o.context is Err ==> spawn_refusal(o) == Some(o.context->Err_0),
        (o.context matches Ok(context) && (context.entry > usize::MAX || context.stack_pointer
            > usize::MAX)) ==> spawn_refusal(o) == Some(SystemCallError::IllegalArgument),
        (o.context matches Ok(context) && context.entry <= usize::MAX && context.stack_pointer
            <= usize::MAX) && o.made is Err ==> spawn_refusal(o) == Some(o.made->Err_0),
{
}

/// What stops it later: in this order, an answer that cannot be written, an address space that
/// does not admit the context, and a process that does not take the thread.
pub proof fn staging_stops_at_the_first_fault(process: LifecycleView, o: SpawnOutcomes)
    ensures
        staging_refusal(process, o) is None <==> o.output is Ok && o.admitted is Ok
            && process.state is Running && process.members.len() < process.max_threads
            && o.built is Ok && o.member_room,
        o.output is Err ==> staging_refusal(process, o) == Some(o.output->Err_0),
        o.output is Ok && o.admitted is Err ==> staging_refusal(process, o) == Some(
            space::building_reported(o.admitted->Err_0),
        ),
        o.output is Ok && o.admitted is Ok && !(process.state is Running) ==> staging_refusal(
            process,
            o,
        ) == Some(SystemCallError::ObjectClosed),
        o.output is Ok && o.admitted is Ok && process.state is Running && process.members.len()
            >= process.max_threads ==> staging_refusal(process, o) == Some(
            SystemCallError::ReachLimit,
        ),
{
}

} // verus!
