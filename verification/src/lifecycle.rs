//! Life of a process: Building, Running, Terminating, Dead.
//!
//! One value holds the phase, the frozen cause of death, the table of threads and
//! the set of harts that execute the process. Everything that has to happen outside
//! of it (interrupting harts, cancelling waits, publishing that the process can be
//! reaped) is handed out as plain data.
use vstd::prelude::*;

verus! {

/// Number of a thread within its process.
pub type Tid = u64;

/// How many harts an active set can hold.
pub const HART_SLOTS: usize = 64;

/// Where a process stands in its life.
#[derive(Clone, Copy, Debug, PartialEq, Eq, Structural)]
pub enum ProcessState {
    Building,
    Running,
    Terminating,
    Dead,
}

/// Why a process ended.
#[derive(Clone, Copy, Debug, PartialEq, Eq, Structural)]
pub enum ProcessExitReason {
    Unset,
    Killed,
    Fault,
    Abandoned,
}

/// Where a thread is.
#[derive(Clone, Copy, Debug, PartialEq, Eq, Structural)]
pub enum ThreadState {
    /// In a ready queue, which holds the thread.
    Ready,
    /// Attached to a process that is still being built; this entry holds the
    /// thread.
    Staging { thread: u64 },
    /// Executing on a hart.
    Running { slot: usize },
    /// Parked; the wait context holds the thread.
    Waiting { context: u64 },
    /// On its way out.
    Exiting,
}

/// Why a thread could not be attached.
#[derive(Clone, Copy, Debug, PartialEq, Eq, Structural)]
pub enum AttachFault {
    /// The process is no longer being built.
    Closed,
    /// The process has as many threads as it may have.
    Limit,
    /// No memory for the thread or its entry.
    Oom,
}

/// Why a process could not be started.
#[derive(Clone, Copy, Debug, PartialEq, Eq, Structural)]
pub enum BeginFault {
    /// The process is no longer being built, or has no thread.
    Closed,
    /// A thread was attached since the threads were counted.
    StaleCount,
}

/// An entry of the thread table.
#[derive(Clone, Copy, Debug, PartialEq, Eq, Structural)]
pub struct MemberEntry {
    pub tid: Tid,
    pub state: ThreadState,
}

/// What a termination leaves to do.
#[derive(Clone, Copy, Debug, PartialEq, Eq, Structural)]
pub struct TerminationTodo {
    /// The harts to interrupt.
    pub ipi_slots: u64,
    /// The process can be reaped at once.
    pub reapable: bool,
}

/// What a running process looked like when a change of it was prepared. The
/// sequence tells apart two moments with the same active set.
#[derive(Clone, Copy, Debug, PartialEq, Eq, Structural)]
pub struct ExecutionSnapshot {
    pub sequence: u64,
    pub active: u64,
}

impl ExecutionSnapshot {
    /// The harts that executed the process.
    pub fn active(self) -> (r: u64)
        ensures
            r == self.active,
    {
        self.active
    }
}

/// The process no longer looks like its snapshot.
#[derive(Clone, Copy, Debug, PartialEq, Eq, Structural)]
pub struct ExecutionChanged;

/// What came of sending a hart into a process.
#[derive(Clone, Copy, Debug, PartialEq, Eq, Structural)]
pub enum EnterRunning {
    Entered,
    /// The hart has to catch up first.
    Retry,
    Closed,
}

/// The life of one process.
pub struct Lifecycle {
    state: ProcessState,
    reason: ProcessExitReason,
    code: i64,
    members: Vec<MemberEntry>,
    next_tid: Tid,
    active: u64,
    execution_sequence: u64,
    building_ops: usize,
    max_threads: usize,
}

/// The life of one process, as a value.
#[verifier::ext_equal]
pub struct LifecycleView {
    pub state: ProcessState,
    pub reason: ProcessExitReason,
    pub code: i64,
    /// The threads, by ascending number.
    pub members: Seq<MemberEntry>,
    /// Number of the next thread; numbers are not reused.
    pub next_tid: Tid,
    /// The harts that execute the process, one bit each.
    pub active: u64,
    /// Grows with every change of the active set and of the phase.
    pub execution_sequence: u64,
    /// Operations on the process under construction that are under way.
    pub building_ops: usize,
    pub max_threads: usize,
}

impl View for Lifecycle {
    type V = LifecycleView;

    closed spec fn view(&self) -> LifecycleView {
        LifecycleView {
            state: self.state,
            reason: self.reason,
            code: self.code,
            members: self.members@,
            next_tid: self.next_tid,
            active: self.active,
            execution_sequence: self.execution_sequence,
            building_ops: self.building_ops,
            max_threads: self.max_threads,
        }
    }
}

/// The bit of hart `slot`.
pub open spec fn hart_bit(slot: usize) -> u64 {
    1u64 << (slot as u64)
}

/// The first entry, at or after `from`, that waits for the process to start; the
/// number of entries if there is none.
pub open spec fn first_staging(members: Seq<MemberEntry>, from: int) -> int
    decreases members.len() - from,
{
    if from >= members.len() {
        members.len() as int
    } else if members[from].state is Staging {
        from
    } else {
        first_staging(members, from + 1)
    }
}

/// The first entry, at or after `from`, that is parked; the number of entries if
/// there is none.
pub open spec fn first_waiting(members: Seq<MemberEntry>, from: int) -> int
    decreases members.len() - from,
{
    if from >= members.len() {
        members.len() as int
    } else if members[from].state is Waiting {
        from
    } else {
        first_waiting(members, from + 1)
    }
}

/// The threads that the entries hold.
pub open spec fn staged_threads(members: Seq<MemberEntry>) -> Seq<u64> {
    members.map_values(|m: MemberEntry| m.state->thread)
}

/// The same threads, all ready to run.
pub open spec fn all_ready(members: Seq<MemberEntry>) -> Seq<MemberEntry> {
    members.map_values(|m: MemberEntry| MemberEntry { tid: m.tid, state: ThreadState::Ready })
}

impl LifecycleView {
    pub open spec fn terminating(self) -> bool {
        self.state is Terminating || self.state is Dead
    }

    /// Entry `i` is that of thread `tid`.
    pub open spec fn at(self, tid: Tid, i: int) -> bool {
        0 <= i < self.members.len() && self.members[i].tid == tid
    }

    /// Thread `tid` is in the table.
    pub open spec fn is_member(self, tid: Tid) -> bool {
        exists|i: int| self.at(tid, i)
    }

    /// Everyone has left a process that is going down: no thread, no hart, no
    /// operation under way.
    pub open spec fn reapable(self) -> bool {
        &&& self.terminating()
        &&& self.members.len() == 0
        &&& self.active == 0
        &&& self.building_ops == 0
    }

    /// What every operation keeps.
    pub open spec fn wf(self) -> bool {
        &&& forall|i: int, j: int|
            0 <= i < j < self.members.len() ==> (#[trigger] self.members[i]).tid < (
            #[trigger] self.members[j]).tid
        &&& forall|i: int|
            0 <= i < self.members.len() ==> 1 <= (#[trigger] self.members[i]).tid < self.next_tid
        &&& self.next_tid >= 1
        &&& self.execution_sequence >= 1
        &&& self.members.len() <= self.max_threads
        &&& self.state is Building ==> forall|i: int|
            0 <= i < self.members.len() ==> (#[trigger] self.members[i]).state is Staging
        &&& self.state is Running ==> forall|i: int|
            0 <= i < self.members.len() ==> !((#[trigger] self.members[i]).state is Staging)
    }

    /// The same with entry `i` in state `state`.
    pub open spec fn with_member(self, i: int, state: ThreadState) -> LifecycleView {
        LifecycleView {
            members: self.members.update(i, MemberEntry { tid: self.members[i].tid, state }),
            ..self
        }
    }

    /// The same, one step further in the execution sequence.
    pub open spec fn advanced(self) -> LifecycleView {
        LifecycleView { execution_sequence: (self.execution_sequence + 1) as u64, ..self }
    }
}

impl LifecycleView {
    /// The same with one more operation under way.
    pub open spec fn op_entered(self) -> LifecycleView {
        LifecycleView { building_ops: (self.building_ops + 1) as usize, ..self }
    }

    /// The same with one operation over.
    pub open spec fn op_left(self) -> LifecycleView {
        LifecycleView { building_ops: (self.building_ops - 1) as usize, ..self }
    }

    /// The same with the next thread number handed out.
    pub open spec fn numbered(self) -> LifecycleView {
        LifecycleView { next_tid: (self.next_tid + 1) as u64, ..self }
    }

    /// The same with a thread at the end of the table.
    pub open spec fn joined(self, tid: Tid, state: ThreadState) -> LifecycleView {
        LifecycleView { members: self.members.push(MemberEntry { tid, state }), ..self }
    }

    /// The process once it runs: every thread is ready, and the operation that started it is
    /// over.
    pub open spec fn started(self) -> LifecycleView {
        LifecycleView {
            state: ProcessState::Running,
            members: all_ready(self.members),
            ..self.op_left().advanced()
        }
    }

    /// The same without entry `i`.
    pub open spec fn departed(self, i: int) -> LifecycleView {
        LifecycleView { members: self.members.remove(i), ..self }
    }

    /// The same once hart `slot` has left.
    pub open spec fn hart_left(self, slot: usize) -> LifecycleView {
        LifecycleView { active: self.active & !hart_bit(slot), ..self.advanced() }
    }

    /// The same once hart `slot` executes the thread of entry `i`.
    pub open spec fn hart_entered(self, i: int, slot: usize) -> LifecycleView {
        LifecycleView {
            active: self.active | hart_bit(slot),
            ..self.advanced().with_member(i, ThreadState::Running { slot })
        }
    }

    /// A request to take the process down leads to `after` and leaves `todo`. The first
    /// request freezes the cause and marks the thread that leaves by itself; a later
    /// one changes nothing.
    pub open spec fn taken_down(
        self,
        after: LifecycleView,
        todo: TerminationTodo,
        reason: ProcessExitReason,
        code: i64,
        exiting: Option<(Tid, usize)>,
    ) -> bool {
        if self.terminating() {
            after == self && todo == (TerminationTodo { ipi_slots: 0, reapable: false })
        } else {
            let frozen = LifecycleView {
                state: ProcessState::Terminating,
                reason,
                code,
                ..self.advanced()
            };
            &&& todo.reapable == after.reapable()
            &&& match exiting {
                None => after == frozen && todo.ipi_slots == self.active,
                Some((tid, slot)) => {
                    &&& todo.ipi_slots == self.active & !hart_bit(slot)
                    &&& exists|i: int| #[trigger]
                        self.at(tid, i) && after == frozen.with_member(i, ThreadState::Exiting)
                },
            }
        }
    }
}

impl Lifecycle {
    /// What every operation keeps.
    pub open spec fn wf(&self) -> bool {
        self@.wf()
    }

    /// A process under construction that may get `max_threads` threads.
    pub fn building(max_threads: usize) -> (r: Lifecycle)
        ensures
            r.wf(),
            r@ == (LifecycleView {
                state: ProcessState::Building,
                reason: ProcessExitReason::Unset,
                code: 0,
                members: Seq::empty(),
                next_tid: 1,
                active: 0,
                execution_sequence: 1,
                building_ops: 0,
                max_threads,
            }),
    {
        Lifecycle {
            state: ProcessState::Building,
            reason: ProcessExitReason::Unset,
            code: 0,
            members: Vec::new(),
            next_tid: 1,
            active: 0,
            execution_sequence: 1,
            building_ops: 0,
            max_threads,
        }
    }

    /// Whether the process is going down or gone.
    pub fn is_terminating(&self) -> (r: bool)
        ensures
            r == self@.terminating(),
    {
        match self.state {
            ProcessState::Terminating | ProcessState::Dead => true,
            _ => false,
        }
    }

    /// What a running process looks like now.
    pub fn snapshot_running(&self) -> (r: Option<ExecutionSnapshot>)
        ensures
            r == if self@.state is Running {
                Some(
                    ExecutionSnapshot {
                        sequence: self@.execution_sequence,
                        active: self@.active,
                    },
                )
            } else {
                None
            },
    {
        match self.state {
            ProcessState::Running => Some(
                ExecutionSnapshot { sequence: self.execution_sequence, active: self.active },
            ),
            _ => None,
        }
    }

    /// Whether a change prepared against `snapshot` may still be committed; if so,
    /// the harts that execute the process.
    pub fn commit_if_current(&self, snapshot: ExecutionSnapshot) -> (r: Result<
        u64,
        ExecutionChanged,
    >)
        ensures
            r is Ok <==> self@.state is Running && self@.execution_sequence == snapshot.sequence
                && self@.active == snapshot.active,
            r matches Ok(active) ==> active == self@.active,
    {
        match self.state {
            ProcessState::Running => if self.execution_sequence == snapshot.sequence && self.active
                == snapshot.active {
                Ok(self.active)
            } else {
                Err(ExecutionChanged)
            },
            _ => Err(ExecutionChanged),
        }
    }

    /// Registers an operation on the process under construction; refused once the
    /// process is going down.
    pub fn enter_building_op(&mut self) -> (r: bool)
        requires
            old(self).wf(),
            !old(self)@.terminating() ==> old(self)@.building_ops < usize::MAX,
        ensures
            final(self).wf(),
            r == !old(self)@.terminating(),
            final(self)@ == if r {
                old(self)@.op_entered()
            } else {
                old(self)@
            },
    {
        if self.is_terminating() {
            return false;
        }
        self.building_ops = self.building_ops + 1;
        true
    }

    /// Ends such an operation; whether the process can be reaped now.
    pub fn leave_building_op(&mut self) -> (r: bool)
        requires
            old(self).wf(),
            old(self)@.building_ops > 0,
        ensures
            final(self).wf(),
            final(self)@ == old(self)@.op_left(),
            r == final(self)@.reapable(),
    {
        self.building_ops = self.building_ops - 1;
        self.is_reapable()
    }

    /// What attaching a thread comes to, where `built` is what building the thread
    /// gave and `room` says whether the table can grow.
    pub open spec fn attach_result(
        state: LifecycleView,
        built: Result<u64, AttachFault>,
        room: bool,
    ) -> Result<Tid, AttachFault> {
        if !(state.state is Building) {
            Err(AttachFault::Closed)
        } else if state.members.len() >= state.max_threads {
            Err(AttachFault::Limit)
        } else {
            match built {
                Err(fault) => Err(fault),
                Ok(_) => if room {
                    Ok(state.next_tid)
                } else {
                    Err(AttachFault::Oom)
                },
            }
        }
    }

    /// What attaching a thread leaves: a failure leaves no trace.
    pub open spec fn attach_leaves(
        state: LifecycleView,
        built: Result<u64, AttachFault>,
        room: bool,
    ) -> LifecycleView {
        match Self::attach_result(state, built, room) {
            Err(_) => state,
            Ok(tid) => state.numbered().joined(
                tid,
                ThreadState::Staging { thread: built->Ok_0 },
            ),
        }
    }

    /// What a run of calls leaves, each given by what building its thread gave and
    /// whether the table can grow.
    pub open spec fn attaches_leave(
        state: LifecycleView,
        calls: Seq<(Result<u64, AttachFault>, bool)>,
    ) -> LifecycleView
        decreases calls.len(),
    {
        if calls.len() == 0 {
            state
        } else {
            Self::attach_leaves(
                Self::attaches_leave(state, calls.drop_last()),
                calls.last().0,
                calls.last().1,
            )
        }
    }

    /// How many of a run of calls succeed.
    pub open spec fn attached(
        state: LifecycleView,
        calls: Seq<(Result<u64, AttachFault>, bool)>,
    ) -> nat
        decreases calls.len(),
    {
        if calls.len() == 0 {
            0
        } else {
            Self::attached(state, calls.drop_last()) + if Self::attach_result(
                Self::attaches_leave(state, calls.drop_last()),
                calls.last().0,
                calls.last().1,
            ) is Ok {
                1nat
            } else {
                0nat
            }
        }
    }

    /// The number that the next attached thread gets, or why none can be attached.
    pub fn attach_slot(&self) -> (r: Result<Tid, AttachFault>)
        ensures
            r == if !(self@.state is Building) {
                Err(AttachFault::Closed)
            } else if self@.members.len() >= self@.max_threads {
                Err(AttachFault::Limit)
            } else {
                Ok(self@.next_tid)
            },
    {
        match self.state {
            ProcessState::Building => {},
            _ => {
                return Err(AttachFault::Closed);
            },
        }
        if self.members.len() >= self.max_threads {
            return Err(AttachFault::Limit);
        }
        Ok(self.next_tid)
    }

    /// Attaches a thread to the process under construction. `built` is the thread
    /// built for the number that [`Lifecycle::attach_slot`] names, or why it could not be; `room`
    /// says whether the table can grow. A failure leaves no trace: the number is
    /// not spent.
    pub fn attach_member(&mut self, built: Result<u64, AttachFault>, room: bool) -> (r: Result<
        Tid,
        AttachFault,
    >)
        requires
            old(self).wf(),
            Self::attach_result(old(self)@, built, room) is Ok ==> old(self)@.next_tid < u64::MAX,
        ensures
            final(self).wf(),
            r == Self::attach_result(old(self)@, built, room),
            final(self)@ == Self::attach_leaves(old(self)@, built, room),
    {
        let tid = match self.attach_slot() {
            Ok(tid) => tid,
            Err(fault) => {
                return Err(fault);
            },
        };
        let thread = match built {
            Ok(thread) => thread,
            Err(fault) => {
                return Err(fault);
            },
        };
        if !room {
            return Err(AttachFault::Oom);
        }
        self.next_tid = tid + 1;
        self.members.push(MemberEntry { tid, state: ThreadState::Staging { thread } });
        Ok(tid)
    }

    /// Attaches a thread on behalf of an operation that is registered already. Such an
    /// operation may still finish after the process has begun to go down; the number is
    /// used up, but the thread is handed back to be dropped.
    pub fn attach_registered_member(&mut self, built: Result<u64, AttachFault>, room: bool) -> (r:
        Result<(Tid, Option<u64>), AttachFault>)
        requires
            old(self).wf(),
            built is Ok ==> old(self)@.next_tid < u64::MAX,
            old(self)@.building_ops > 0,
        ensures
            final(self).wf(),
            r == if old(self)@.state is Terminating {
                match built {
                    Err(fault) => Err(fault),
                    Ok(thread) => Ok::<_, AttachFault>((old(self)@.next_tid, Some(thread))),
                }
            } else {
                match Self::attach_result(old(self)@, built, room) {
                    Err(fault) => Err(fault),
                    Ok(tid) => Ok((tid, None)),
                }
            },
            r is Err ==> final(self)@ == old(self)@,
            r matches Ok((tid, retired)) ==> final(self)@ == if retired is Some {
                old(self)@.numbered()
            } else {
                old(self)@.numbered().joined(tid, ThreadState::Staging { thread: built->Ok_0 })
            },
    {
        if let ProcessState::Terminating = self.state {
            let tid: Tid = self.next_tid;
            return match built {
                Err(fault) => Err(fault),
                Ok(thread) => {
                    self.next_tid = tid + 1;
                    Ok((tid, Some(thread)))
                },
            };
        }
        match self.attach_member(built, room) {
            Err(fault) => Err(fault),
            Ok(tid) => Ok((tid, None)),
        }
    }

    /// What creating a thread in the running process comes to, where `built` is what building
    /// it gave and `room` says whether the table can grow.
    pub open spec fn spawn_result(
        state: LifecycleView,
        built: Result<u64, AttachFault>,
        room: bool,
    ) -> Result<Tid, AttachFault> {
        if !(state.state is Running) {
            Err(AttachFault::Closed)
        } else if state.members.len() >= state.max_threads {
            Err(AttachFault::Limit)
        } else {
            match built {
                Err(fault) => Err(fault),
                Ok(_) => if room {
                    Ok(state.next_tid)
                } else {
                    Err(AttachFault::Oom)
                },
            }
        }
    }

    /// Begins to create a thread in the running process: the number that it has. The number is
    /// used up, whether the thread is created in the end or not.
    pub fn begin_spawn(&mut self, built: Result<u64, AttachFault>, room: bool) -> (r: Result<
        Tid,
        AttachFault,
    >)
        requires
            old(self).wf(),
            Self::spawn_result(old(self)@, built, room) is Ok ==> old(self)@.next_tid < u64::MAX,
        ensures
            final(self).wf(),
            r == Self::spawn_result(old(self)@, built, room),
            final(self)@ == if r is Ok {
                old(self)@.numbered()
            } else {
                old(self)@
            },
    {
        match self.state {
            ProcessState::Running => {},
            _ => {
                return Err(AttachFault::Closed);
            },
        }
        if self.members.len() >= self.max_threads {
            return Err(AttachFault::Limit);
        }
        match built {
            Err(fault) => {
                return Err(fault);
            },
            Ok(_) => {},
        }
        if !room {
            return Err(AttachFault::Oom);
        }
        let tid: Tid = self.next_tid;
        self.next_tid = tid + 1;
        Ok(tid)
    }

    /// Enters the thread whose creation began, ready to run.
    pub fn commit_spawn(&mut self, tid: Tid)
        requires
            old(self).wf(),
            old(self)@.state is Running,
            old(self)@.members.len() < old(self)@.max_threads,
            1 <= tid < old(self)@.next_tid,
            forall|i: int|
                0 <= i < old(self)@.members.len() ==> (#[trigger] old(self)@.members[i]).tid < tid,
        ensures
            final(self).wf(),
            final(self)@ == old(self)@.joined(tid, ThreadState::Ready),
    {
        self.members.push(MemberEntry { tid, state: ThreadState::Ready });
    }

    /// How many threads the process has.
    pub fn member_count(&self) -> (r: usize)
        ensures
            r == self@.members.len(),
    {
        self.members.len()
    }

    /// Starts the process if it has threads, and exactly as many as were counted
    /// before: ends the operation that starts it, makes every thread ready and hands
    /// them out in order. All of it is one step, so no thread is ever left behind in
    /// staging.
    pub fn begin_running(&mut self, expected: usize, out: &mut Vec<u64>) -> (r: Result<
        (),
        BeginFault,
    >)
        requires
            old(self).wf(),
            old(self)@.state is Building && old(self)@.members.len() > 0
                && old(self)@.members.len() == expected ==> old(self)@.building_ops > 0
                && old(self)@.execution_sequence < u64::MAX,
        ensures
            final(self).wf(),
            r == if !(old(self)@.state is Building) || old(self)@.members.len() == 0 {
                Err::<(), _>(BeginFault::Closed)
            } else if old(self)@.members.len() != expected {
                Err(BeginFault::StaleCount)
            } else {
                Ok(())
            },
            r is Err ==> final(self)@ == old(self)@ && final(out)@ == old(out)@,
            r is Ok ==> final(self)@ == old(self)@.started(),
            r is Ok ==> final(out)@ == old(out)@ + staged_threads(old(self)@.members),
    {
        match self.state {
            ProcessState::Building => {},
            _ => {
                return Err(BeginFault::Closed);
            },
        }
        if self.members.len() == 0 {
            return Err(BeginFault::Closed);
        }
        if self.members.len() != expected {
            return Err(BeginFault::StaleCount);
        }
        let ghost before = self@;
        let ghost given = out@;
        self.building_ops = self.building_ops - 1;
        let mut index: usize = 0;
        while index < self.members.len()
            invariant
                index <= self.members.len(),
                before == old(self)@,
                given == old(out)@,
                self.members.len() == before.members.len(),
                before.wf(),
                before.state is Building,
                forall|i: int|
                    0 <= i < index ==> self.members[i] == (MemberEntry {
                        tid: before.members[i].tid,
                        state: ThreadState::Ready,
                    }),
                forall|i: int|
                    index <= i < self.members.len() ==> self.members[i] == before.members[i],
                self@ == (LifecycleView {
                    building_ops: (before.building_ops - 1) as usize,
                    members: self.members@,
                    ..before
                }),
                out@ =~= given + staged_threads(before.members).take(index as int),
            decreases self.members.len() - index,
        {
            let entry = self.members[index];
            assert(before.members[index as int].state is Staging);
            if let ThreadState::Staging { thread } = entry.state {
                out.push(thread);
            }
            self.members.set(index, MemberEntry { tid: entry.tid, state: ThreadState::Ready });
            index = index + 1;
        }
        assert(self.members@ =~= all_ready(before.members));
        assert(staged_threads(before.members).take(index as int) =~= staged_threads(
            before.members,
        ));
        self.execution_sequence = self.execution_sequence + 1;
        self.state = ProcessState::Running;
        Ok(())
    }

    /// Takes out the first thread that waits for the process to start.
    pub fn take_first_staging(&mut self) -> (r: Option<u64>)
        requires
            old(self).wf(),
        ensures
            final(self).wf(),
            ({
                let first = first_staging(old(self)@.members, 0);
                if first == old(self)@.members.len() {
                    r is None && final(self)@ == old(self)@
                } else {
                    &&& old(self)@.members[first].state is Staging
                    &&& r == Some(old(self)@.members[first].state->thread)
                    &&& final(self)@ == old(self)@.departed(first)
                }
            }),
    {
        let mut index: usize = 0;
        while index < self.members.len()
            invariant
                index <= self.members.len(),
                self@ == old(self)@,
                self.wf(),
                first_staging(self@.members, 0) == first_staging(self@.members, index as int),
            decreases self.members.len() - index,
        {
            if let ThreadState::Staging { thread } = self.members[index].state {
                self.members.remove(index);
                return Some(thread);
            }
            index = index + 1;
        }
        None
    }

    /// Position of thread `tid`, or where it would be inserted.
    fn position(&self, tid: Tid) -> (r: Result<usize, usize>)
        requires
            self.wf(),
        ensures
            r is Ok <==> self@.is_member(tid),
            r matches Ok(i) ==> self@.at(tid, i as int),
            r matches Err(i) ==> {
                &&& i <= self@.members.len()
                &&& forall|k: int| 0 <= k < i ==> self@.members[k].tid < tid
                &&& forall|k: int| i <= k < self@.members.len() ==> self@.members[k].tid > tid
            },
    {
        let mut low: usize = 0;
        let mut high: usize = self.members.len();
        while low < high
            invariant
                low <= high <= self.members.len(),
                self.wf(),
                forall|k: int| 0 <= k < low ==> self@.members[k].tid < tid,
                forall|k: int| high <= k < self.members.len() ==> self@.members[k].tid > tid,
            decreases high - low,
        {
            let middle: usize = low + (high - low) / 2;
            let found: Tid = self.members[middle].tid;
            if found == tid {
                assert(self@.at(tid, middle as int));
                return Ok(middle);
            }
            if found < tid {
                low = middle + 1;
            } else {
                high = middle;
            }
        }
        assert forall|i: int| !self@.at(tid, i) by {}
        Err(low)
    }

    /// Position of thread `tid`, which is in the table.
    fn index_of(&self, tid: Tid) -> (r: usize)
        requires
            self.wf(),
            self@.is_member(tid),
        ensures
            self@.at(tid, r as int),
    {
        self.position(tid).unwrap()
    }

    /// Starts taking the process down. The first request freezes the cause; later
    /// ones change nothing and leave nothing to do. `exiting` names the thread that
    /// ends its own process, and the hart it runs on: it is marked as leaving, and
    /// that hart is not interrupted.
    pub fn request_termination(
        &mut self,
        reason: ProcessExitReason,
        code: i64,
        exiting: Option<(Tid, usize)>,
    ) -> (r: TerminationTodo)
        requires
            old(self).wf(),
            !old(self)@.terminating() ==> old(self)@.execution_sequence < u64::MAX,
            !old(self)@.terminating() ==> (exiting matches Some((tid, slot)) ==> slot < HART_SLOTS
                && old(self)@.is_member(tid) && forall|i: int| #[trigger]
                old(self)@.at(tid, i) ==> old(self)@.members[i].state is Running),
        ensures
            final(self).wf(),
            old(self)@.taken_down(final(self)@, r, reason, code, exiting),
    {
        if self.is_terminating() {
            return TerminationTodo { ipi_slots: 0, reapable: false };
        }
        let ghost before = self@;
        self.reason = reason;
        self.code = code;
        let ipi_slots: u64 = match exiting {
            Some((tid, slot)) => {
                assert(exists|i: int| before.at(tid, i));
                assert(forall|i: int| self@.at(tid, i) == before.at(tid, i));
                let index: usize = self.index_of(tid);
                self.members.set(index, MemberEntry { tid, state: ThreadState::Exiting });
                self.active & !(1u64 << (slot as u64))
            },
            None => self.active,
        };
        let reapable: bool = self.members.len() == 0 && self.active == 0 && self.building_ops == 0;
        self.execution_sequence = self.execution_sequence + 1;
        self.state = ProcessState::Terminating;
        TerminationTodo { ipi_slots, reapable }
    }

    /// Parks a running thread; refused once the process is going down.
    pub fn park_waiting(&mut self, tid: Tid, context: u64) -> (r: bool)
        requires
            old(self).wf(),
            !old(self)@.terminating() ==> old(self)@.is_member(tid) && forall|i: int| #[trigger]
                old(self)@.at(tid, i) ==> old(self)@.members[i].state is Running,
        ensures
            final(self).wf(),
            r == !old(self)@.terminating(),
            !r ==> final(self)@ == old(self)@,
            r ==> exists|i: int| #[trigger]
                old(self)@.at(tid, i) && final(self)@ == old(self)@.with_member(
                    i,
                    ThreadState::Waiting { context },
                ),
    {
        if self.is_terminating() {
            return false;
        }
        let ghost before = self@;
        let index: usize = self.index_of(tid);
        self.members.set(index, MemberEntry { tid, state: ThreadState::Waiting { context } });
        assert(self@ =~= before.with_member(index as int, ThreadState::Waiting { context }));
        true
    }

    /// Takes the hart in `slot` out of the process and puts its thread back among
    /// the ready ones, provided that the hart is `synchronized`. A thread of a
    /// process that is going down, or one that is no longer running, stays as it is.
    pub fn on_requeue_if(&mut self, tid: Tid, slot: usize, synchronized: bool) -> (r: bool)
        requires
            old(self).wf(),
            slot < HART_SLOTS,
            synchronized ==> old(self)@.active & hart_bit(slot) != 0
                && old(self)@.execution_sequence < u64::MAX,
        ensures
            final(self).wf(),
            r == synchronized,
            !r ==> final(self)@ == old(self)@,
            r ==> {
                let left = old(self)@.hart_left(slot);
                if !old(self)@.terminating() && exists|i: int| #[trigger]
                    old(self)@.at(tid, i) && old(self)@.members[i].state is Running {
                    exists|i: int| #[trigger]
                        old(self)@.at(tid, i) && old(self)@.members[i].state is Running
                            && final(self)@ == left.with_member(i, ThreadState::Ready)
                } else {
                    final(self)@ == left
                }
            },
    {
        if !synchronized {
            return false;
        }
        let ghost before = self@;
        self.active = self.active & !(1u64 << (slot as u64));
        self.execution_sequence = self.execution_sequence + 1;
        let ghost left = self@;
        if !self.is_terminating() {
            if let Ok(index) = self.position(tid) {
                assert(before.at(tid, index as int));
                assert forall|i: int| before.at(tid, i) implies i == index by {}
                if let ThreadState::Running { .. } = self.members[index].state {
                    self.members.set(index, MemberEntry { tid, state: ThreadState::Ready });
                    assert(self@ =~= left.with_member(index as int, ThreadState::Ready));
                }
            } else {
                assert forall|i: int| !before.at(tid, i) by {
                    assert(left.at(tid, i) == before.at(tid, i));
                }
            }
        }
        true
    }

    /// Takes the hart in `slot` out of the process, provided that it is
    /// `synchronized`.
    pub fn clear_active_if(&mut self, slot: usize, synchronized: bool) -> (r: bool)
        requires
            old(self).wf(),
            slot < HART_SLOTS,
            synchronized ==> old(self)@.active & hart_bit(slot) != 0
                && old(self)@.execution_sequence < u64::MAX,
        ensures
            final(self).wf(),
            r == synchronized,
            final(self)@ == if r {
                old(self)@.hart_left(slot)
            } else {
                old(self)@
            },
    {
        if !synchronized {
            return false;
        }
        self.active = self.active & !(1u64 << (slot as u64));
        self.execution_sequence = self.execution_sequence + 1;
        true
    }

    /// Sends the hart in `slot` into the process to execute thread `tid`: refused
    /// once the process is going down, put off while the hart is not `synchronized`.
    pub fn enter_running_if(&mut self, tid: Tid, slot: usize, synchronized: bool) -> (r:
        EnterRunning)
        requires
            old(self).wf(),
            slot < HART_SLOTS,
            !old(self)@.terminating() && synchronized ==> {
                &&& old(self)@.state is Running
                &&& old(self)@.is_member(tid)
                &&& old(self)@.active & hart_bit(slot) == 0
                &&& old(self)@.execution_sequence < u64::MAX
            },
        ensures
            final(self).wf(),
            r == if old(self)@.terminating() {
                EnterRunning::Closed
            } else if !synchronized {
                EnterRunning::Retry
            } else {
                EnterRunning::Entered
            },
            !(r is Entered) ==> final(self)@ == old(self)@,
            r is Entered ==> exists|i: int| #[trigger]
                old(self)@.at(tid, i) && final(self)@ == old(self)@.hart_entered(i, slot),
    {
        if self.is_terminating() {
            return EnterRunning::Closed;
        }
        if !synchronized {
            return EnterRunning::Retry;
        }
        let ghost before = self@;
        let index: usize = self.index_of(tid);
        self.members.set(index, MemberEntry { tid, state: ThreadState::Running { slot } });
        self.active = self.active | (1u64 << (slot as u64));
        self.execution_sequence = self.execution_sequence + 1;
        assert(self@ =~= (LifecycleView {
            active: before.active | hart_bit(slot),
            ..before.advanced().with_member(index as int, ThreadState::Running { slot })
        }));
        EnterRunning::Entered
    }

    /// Takes a thread that is gone out of the table; whether the process can be
    /// reaped now.
    pub fn thread_departed(&mut self, tid: Tid) -> (r: bool)
        requires
            old(self).wf(),
            old(self)@.is_member(tid),
        ensures
            final(self).wf(),
            exists|i: int| #[trigger]
                old(self)@.at(tid, i) && final(self)@ == old(self)@.departed(i),
            !final(self)@.is_member(tid),
            r == final(self)@.reapable(),
    {
        let ghost before = self@;
        let index: usize = self.index_of(tid);
        self.members.remove(index);
        assert forall|k: int| !self@.at(tid, k) by {
            if 0 <= k < self@.members.len() {
                if k < index {
                    assert(self@.members[k] == before.members[k]);
                } else {
                    assert(self@.members[k] == before.members[k + 1]);
                }
            }
        }
        self.is_reapable()
    }

    /// Hands out the wait of the first parked thread and marks that thread as
    /// leaving.
    pub fn take_first_waiting(&mut self) -> (r: Option<u64>)
        requires
            old(self).wf(),
        ensures
            final(self).wf(),
            ({
                let first = first_waiting(old(self)@.members, 0);
                if first == old(self)@.members.len() {
                    r is None && final(self)@ == old(self)@
                } else {
                    &&& old(self)@.members[first].state is Waiting
                    &&& r == Some(old(self)@.members[first].state->context)
                    &&& final(self)@ == old(self)@.with_member(first, ThreadState::Exiting)
                }
            }),
    {
        let mut index: usize = 0;
        while index < self.members.len()
            invariant
                index <= self.members.len(),
                self@ == old(self)@,
                self.wf(),
                first_waiting(self@.members, 0) == first_waiting(self@.members, index as int),
            decreases self.members.len() - index,
        {
            let entry = self.members[index];
            if let ThreadState::Waiting { context } = entry.state {
                self.members.set(
                    index,
                    MemberEntry { tid: entry.tid, state: ThreadState::Exiting },
                );
                return Some(context);
            }
            index = index + 1;
        }
        None
    }

    /// Whether the process can be reaped.
    pub fn is_reapable(&self) -> (r: bool)
        ensures
            r == self@.reapable(),
    {
        self.is_terminating() && self.members.len() == 0 && self.active == 0 && self.building_ops
            == 0
    }

    /// Phase and cause of death, taken together.
    pub fn snapshot(&self) -> (r: (ProcessState, ProcessExitReason, i64))
        ensures
            r == (self@.state, self@.reason, self@.code),
    {
        (self.state, self.reason, self.code)
    }

    /// Declares the process dead; the frozen cause.
    pub fn mark_dead(&mut self) -> (r: (ProcessExitReason, i64))
        requires
            old(self).wf(),
        ensures
            final(self).wf(),
            final(self)@ == (LifecycleView { state: ProcessState::Dead, ..old(self)@ }),
            r == (old(self)@.reason, old(self)@.code),
    {
        self.state = ProcessState::Dead;
        (self.reason, self.code)
    }
}

/// A running process has no thread left in staging.
pub proof fn running_has_no_staging(state: LifecycleView)
    requires
        state.wf(),
        state.state is Running,
    ensures
        first_staging(state.members, 0) == state.members.len(),
{
    no_staging_from(state.members, 0);
}

proof fn no_staging_from(members: Seq<MemberEntry>, from: int)
    requires
        0 <= from <= members.len(),
        forall|i: int| 0 <= i < members.len() ==> !((#[trigger] members[i]).state is Staging),
    ensures
        first_staging(members, from) == members.len(),
    decreases members.len() - from,
{
    if from < members.len() {
        no_staging_from(members, from + 1);
    }
}

/// The number that an attached thread gets is none that a thread of the process
/// has.
pub proof fn attached_number_is_fresh(state: LifecycleView)
    requires
        state.wf(),
    ensures
        !state.is_member(state.next_tid),
{
    assert forall|i: int| !state.at(state.next_tid, i) by {}
}

/// A hart that enters a process and leaves it again restores the active set but
/// not the snapshot: a change prepared before is refused.
pub proof fn leaving_and_coming_back_is_visible(state: LifecycleView, i: int, slot: usize)
    requires
        slot < HART_SLOTS,
        state.active & hart_bit(slot) == 0,
        state.execution_sequence < u64::MAX - 1,
    ensures
        ({
            let entered = state.hart_entered(i, slot);
            let left = entered.hart_left(slot);
            &&& left.active == state.active
            &&& left.execution_sequence != state.execution_sequence
        }),
{
    let a = state.active;
    let b = hart_bit(slot);
    assert((a | b) & !b == a) by (bit_vector)
        requires
            a & b == 0,
    ;
}

/// How many threads are parked.
pub open spec fn waiting_count(members: Seq<MemberEntry>) -> nat
    decreases members.len(),
{
    if members.len() == 0 {
        0
    } else {
        waiting_count(members.drop_last()) + if members.last().state is Waiting {
            1nat
        } else {
            0nat
        }
    }
}

/// Cancelling the first parked thread leaves one fewer to cancel, so the walk over
/// them ends.
pub proof fn cancelling_waits_ends(state: LifecycleView)
    requires
        first_waiting(state.members, 0) < state.members.len(),
    ensures
        waiting_count(
            state.with_member(
                first_waiting(state.members, 0),
                ThreadState::Exiting,
            ).members,
        ) == waiting_count(state.members) - 1,
{
    first_waiting_facts(state.members, 0);
    let first = first_waiting(state.members, 0);
    waiting_count_update(
        state.members,
        first,
        MemberEntry { tid: state.members[first].tid, state: ThreadState::Exiting },
    );
}

proof fn first_waiting_facts(members: Seq<MemberEntry>, from: int)
    requires
        0 <= from <= members.len(),
    ensures
        from <= first_waiting(members, from) <= members.len(),
        first_waiting(members, from) < members.len() ==> members[first_waiting(
            members,
            from,
        )].state is Waiting,
    decreases members.len() - from,
{
    if from < members.len() && !(members[from].state is Waiting) {
        first_waiting_facts(members, from + 1);
    }
}

proof fn waiting_count_update(members: Seq<MemberEntry>, i: int, entry: MemberEntry)
    requires
        0 <= i < members.len(),
        members[i].state is Waiting,
        !(entry.state is Waiting),
    ensures
        waiting_count(members.update(i, entry)) == waiting_count(members) - 1,
    decreases members.len(),
{
    let updated = members.update(i, entry);
    if i == members.len() - 1 {
        assert(updated.drop_last() =~= members.drop_last());
    } else {
        waiting_count_update(members.drop_last(), i, entry);
        assert(updated.drop_last() =~= members.drop_last().update(i, entry));
    }
}

/// Nothing under way and no hart inside: a process without threads is reapable the
/// moment it is taken down, and stays so until it is declared dead.
pub proof fn empty_process_is_reapable_at_once(state: LifecycleView)
    requires
        !state.terminating(),
        state.members.len() == 0,
        state.active == 0,
        state.building_ops == 0,
    ensures
        (LifecycleView { state: ProcessState::Terminating, ..state.advanced() }).reapable(),
        (LifecycleView { state: ProcessState::Dead, ..state.advanced() }).reapable(),
{
}

/// Threads are numbered without gaps: after a run of calls on a process that has attached
/// none yet, the next thread gets one more than the number of calls that succeeded, and a
/// call that failed used nothing up.
pub proof fn numbers_have_no_gaps(
    state: LifecycleView,
    calls: Seq<(Result<u64, AttachFault>, bool)>,
    built: Result<u64, AttachFault>,
    room: bool,
)
    requires
        state.next_tid == 1,
        calls.len() < u64::MAX - 1,
    ensures
        ({
            let after = Lifecycle::attaches_leave(state, calls);
            let attached = Lifecycle::attached(state, calls);
            &&& attached <= calls.len()
            &&& after.next_tid == 1 + attached
            &&& after.members.len() == state.members.len() + attached
            &&& Lifecycle::attach_result(after, built, room) matches Ok(tid) ==> tid == 1 + attached
            &&& Lifecycle::attach_result(after, built, room) is Err ==> Lifecycle::attach_leaves(
                after,
                built,
                room,
            ) == after
        }),
    decreases calls.len(),
{
    if calls.len() > 0 {
        numbers_have_no_gaps(state, calls.drop_last(), calls.last().0, calls.last().1);
    }
}

/// Harts have their own bits: no two share one, and leaving takes one hart out of a set and
/// nobody else.
pub proof fn harts_have_their_own_bits(a: usize, b: usize, active: u64)
    requires
        a < HART_SLOTS,
        b < HART_SLOTS,
    ensures
        hart_bit(a) & hart_bit(b) != 0 <==> a == b,
        (active & !hart_bit(a)) & hart_bit(a) == 0,
        (active | hart_bit(a)) & hart_bit(a) != 0,
        a != b ==> (active & !hart_bit(a)) & hart_bit(b) == active & hart_bit(b),
        a != b ==> (active | hart_bit(a)) & hart_bit(b) == active & hart_bit(b),
{
    let x = a as u64;
    let y = b as u64;
    assert(x < 64 && y < 64 ==> {
        &&& (1u64 << x) & (1u64 << y) != 0 <==> x == y
        &&& (active & !(1u64 << x)) & (1u64 << x) == 0
        &&& (active | (1u64 << x)) & (1u64 << x) != 0
        &&& x != y ==> (active & !(1u64 << x)) & (1u64 << y) == active & (1u64 << y)
        &&& x != y ==> (active | (1u64 << x)) & (1u64 << y) == active & (1u64 << y)
    }) by (bit_vector);
}

/// The first request to take a process down fixes the cause for good: it is the one asked for,
/// and a later request changes neither it nor anything else, and leaves nothing to do. All harts
/// that run the process are to be stopped but the one that asks, no thread comes or goes, and
/// only the one that leaves by itself changes its state.
pub proof fn first_request_fixes_the_cause(
    state: LifecycleView,
    after: LifecycleView,
    todo: TerminationTodo,
    reason: ProcessExitReason,
    code: i64,
    exiting: Option<(Tid, usize)>,
    other: usize,
)
    requires
        state.wf(),
        state.taken_down(after, todo, reason, code, exiting),
        state.execution_sequence < u64::MAX,
        other < HART_SLOTS,
        exiting matches Some((_, slot)) ==> slot < HART_SLOTS,
    ensures
        after.state is Terminating || after.state is Dead,
        state.state is Terminating || state.state is Dead ==> after == state && todo.ipi_slots == 0
            && !todo.reapable,
        !(state.state is Terminating || state.state is Dead) ==> {
            &&& after.state is Terminating && after.reason == reason && after.code == code
            &&& after.execution_sequence == state.execution_sequence + 1
            &&& after.active == state.active && after.next_tid == state.next_tid
            &&& after.building_ops == state.building_ops && after.max_threads == state.max_threads
            &&& after.members.len() == state.members.len()
            &&& forall|i: int|
                0 <= i < state.members.len() ==> (#[trigger] after.members[i]).tid
                    == state.members[i].tid
            &&& exiting is None ==> after.members == state.members && todo.ipi_slots == state.active
            &&& exiting matches Some((tid, slot)) ==> {
                &&& forall|i: int|
                    0 <= i < state.members.len() ==> (#[trigger] after.members[i]).state == if (
                    state.members[i].tid == tid) {
                        ThreadState::Exiting
                    } else {
                        state.members[i].state
                    }
                &&& todo.ipi_slots & hart_bit(slot) == 0
                &&& other != slot ==> todo.ipi_slots & hart_bit(other) == state.active & hart_bit(
                    other,
                )
            }
            &&& todo.reapable <==> state.members.len() == 0 && state.active == 0
                && state.building_ops == 0
        },
{
    if let Some((tid, slot)) = exiting {
        harts_have_their_own_bits(slot, other, state.active);
    }
}

/// A process can be reaped exactly if it goes down and everyone has left: no thread, no hart and
/// no operation is left in it.
pub proof fn reaping_waits_for_everyone(state: LifecycleView)
    ensures
        state.reapable() <==> (state.state is Terminating || state.state is Dead)
            && state.members.len() == 0 && state.active == 0 && state.building_ops == 0,
{
}

/// A change of one thread's state changes that state alone.
pub proof fn states_change_one_by_one(state: LifecycleView, i: int, next: ThreadState)
    requires
        0 <= i < state.members.len(),
    ensures
        ({
            let after = state.with_member(i, next);
            &&& after.members.len() == state.members.len()
            &&& after.members[i].state == next && after.members[i].tid == state.members[i].tid
            &&& forall|j: int|
                0 <= j < state.members.len() && j != i ==> #[trigger] after.members[j]
                    == state.members[j]
            &&& after.state == state.state && after.active == state.active
            &&& after.execution_sequence == state.execution_sequence
            &&& after.next_tid == state.next_tid && after.reason == state.reason && after.code
                == state.code
            &&& after.building_ops == state.building_ops
        }),
{
}

/// Every step of the execution sequence is a step forward, and changes nothing else.
pub proof fn execution_steps_forward(state: LifecycleView)
    requires
        state.execution_sequence < u64::MAX,
    ensures
        state.advanced().execution_sequence == state.execution_sequence + 1,
        (LifecycleView { execution_sequence: state.execution_sequence, ..state.advanced() })
            == state,
{
}

/// The first thread that is staged, or parked, is named: there is none before it, and none at
/// all if the number of entries is named.
pub proof fn first_of_its_state(members: Seq<MemberEntry>, from: int)
    requires
        0 <= from <= members.len(),
    ensures
        ({
            let staged = first_staging(members, from);
            &&& from <= staged <= members.len()
            &&& staged < members.len() ==> members[staged].state is Staging
            &&& forall|j: int| from <= j < staged ==> !((#[trigger] members[j]).state is Staging)
        }),
        ({
            let parked = first_waiting(members, from);
            &&& from <= parked <= members.len()
            &&& parked < members.len() ==> members[parked].state is Waiting
            &&& forall|j: int| from <= j < parked ==> !((#[trigger] members[j]).state is Waiting)
        }),
    decreases members.len() - from,
{
    if from < members.len() {
        first_of_its_state(members, from + 1);
    }
}

/// When a process starts, every thread that was staged is handed out once, in order, and is
/// ready; none changes its number.
pub proof fn starting_readies_everyone(members: Seq<MemberEntry>, i: int)
    requires
        0 <= i < members.len(),
    ensures
        staged_threads(members).len() == members.len(),
        all_ready(members).len() == members.len(),
        members[i].state matches ThreadState::Staging { thread } ==> staged_threads(members)[i]
            == thread,
        all_ready(members)[i].tid == members[i].tid,
        all_ready(members)[i].state is Ready,
{
}

/// A thread joins a process that is being built, or starts in one that runs, exactly if the
/// process is in that state, has room for one more thread, the thread could be built and the table
/// can grow; and then gets the next number.
pub proof fn threads_join_where_there_is_room(
    state: LifecycleView,
    built: Result<u64, AttachFault>,
    room: bool,
)
    ensures
        Lifecycle::attach_result(state, built, room) is Ok <==> state.state is Building
            && state.members.len() < state.max_threads && built is Ok && room,
        Lifecycle::spawn_result(state, built, room) is Ok <==> state.state is Running
            && state.members.len() < state.max_threads && built is Ok && room,
        Lifecycle::attach_result(state, built, room) matches Ok(tid) ==> tid == state.next_tid,
        Lifecycle::spawn_result(state, built, room) matches Ok(tid) ==> tid == state.next_tid,
        !(state.state is Building) ==> Lifecycle::attach_result(state, built, room) == Err::<
            Tid,
            _,
        >(AttachFault::Closed),
        !(state.state is Running) ==> Lifecycle::spawn_result(state, built, room) == Err::<Tid, _>(
            AttachFault::Closed,
        ),
        state.state is Building && state.members.len() >= state.max_threads
            ==> Lifecycle::attach_result(state, built, room) == Err::<Tid, _>(AttachFault::Limit),
        state.state is Running && state.members.len() >= state.max_threads
            ==> Lifecycle::spawn_result(state, built, room) == Err::<Tid, _>(AttachFault::Limit),
{
}

/// A thread that joins is the last of the table, staged, with the thread that was built for it;
/// nobody else changes, and the next one gets the next number.
pub proof fn joining_adds_one_at_the_end(
    state: LifecycleView,
    built: Result<u64, AttachFault>,
    room: bool,
)
    requires
        state.next_tid < u64::MAX,
        Lifecycle::attach_result(state, built, room) is Ok,
    ensures
        ({
            let after = Lifecycle::attach_leaves(state, built, room);
            &&& after.members.len() == state.members.len() + 1
            &&& forall|i: int|
                0 <= i < state.members.len() ==> #[trigger] after.members[i] == state.members[i]
            &&& after.members.last().tid == state.next_tid
            &&& after.members.last().state matches ThreadState::Staging { thread } && built == Ok::<
                _,
                AttachFault,
            >(thread)
            &&& after.next_tid == state.next_tid + 1
            &&& after.state == state.state && after.active == state.active
                && after.execution_sequence == state.execution_sequence
        }),
{
}

/// A hart that enters is there and runs the thread; a hart that leaves is not. No other hart comes
/// or goes by it, no other thread changes, and either is a step of the execution sequence.
pub proof fn harts_come_and_go_one_by_one(
    state: LifecycleView,
    i: int,
    slot: usize,
    other: usize,
)
    requires
        slot < HART_SLOTS,
        other < HART_SLOTS,
        0 <= i < state.members.len(),
        state.execution_sequence < u64::MAX,
    ensures
        ({
            let after = state.hart_entered(i, slot);
            &&& after.active & hart_bit(slot) != 0
            &&& other != slot ==> after.active & hart_bit(other) == state.active & hart_bit(other)
            &&& after.members[i].state == (ThreadState::Running { slot }) && after.members[i].tid
                == state.members[i].tid
            &&& forall|j: int|
                0 <= j < state.members.len() && j != i ==> #[trigger] after.members[j]
                    == state.members[j]
            &&& after.execution_sequence == state.execution_sequence + 1
            &&& after.state == state.state && after.next_tid == state.next_tid
        }),
        ({
            let after = state.hart_left(slot);
            &&& after.active & hart_bit(slot) == 0
            &&& other != slot ==> after.active & hart_bit(other) == state.active & hart_bit(other)
            &&& after.members == state.members && after.state == state.state
            &&& after.execution_sequence == state.execution_sequence + 1
        }),
{
    harts_have_their_own_bits(slot, other, state.active);
}

/// Operations are counted: each that begins is one more, each that ends one less, and nothing else
/// changes.
pub proof fn operations_are_counted(state: LifecycleView)
    requires
        state.building_ops < usize::MAX,
    ensures
        state.op_entered().building_ops == state.building_ops + 1,
        state.op_entered().op_left() == state,
        (LifecycleView { building_ops: state.building_ops, ..state.op_entered() }) == state,
        !state.op_entered().reapable(),
{
}

/// A thread that leaves the table takes its own entry along and no other, in whose order nothing
/// changes; one that joins is the last, and a number that is handed out is not handed out again.
pub proof fn threads_come_and_go_one_by_one(
    state: LifecycleView,
    i: int,
    tid: Tid,
    kind: ThreadState,
)
    requires
        0 <= i < state.members.len(),
        state.next_tid < u64::MAX,
    ensures
        ({
            let after = state.departed(i);
            &&& after.members.len() == state.members.len() - 1
            &&& forall|j: int| 0 <= j < i ==> #[trigger] after.members[j] == state.members[j]
            &&& forall|j: int|
                i <= j < after.members.len() ==> #[trigger] after.members[j] == state.members[j + 1]
            &&& (LifecycleView { members: state.members, ..after }) == state
        }),
        ({
            let after = state.joined(tid, kind);
            &&& after.members.len() == state.members.len() + 1
            &&& after.members.last().tid == tid && after.members.last().state == kind
            &&& after.members.drop_last() == state.members
            &&& (LifecycleView { members: state.members, ..after }) == state
        }),
        state.numbered().next_tid == state.next_tid + 1,
        (LifecycleView { next_tid: state.next_tid, ..state.numbered() }) == state,
{
    assert(state.joined(tid, kind).members.drop_last() =~= state.members);
}

/// A process that starts runs, with every thread ready and the starting operation over; its threads
/// keep their numbers, and no hart is in it yet that was not.
pub proof fn starting_in_full(state: LifecycleView)
    requires
        state.building_ops > 0,
        state.execution_sequence < u64::MAX,
    ensures
        ({
            let after = state.started();
            &&& after.state is Running && after.building_ops == state.building_ops - 1
            &&& after.execution_sequence == state.execution_sequence + 1
            &&& after.members.len() == state.members.len()
            &&& forall|i: int|
                0 <= i < state.members.len() ==> (#[trigger] after.members[i]).tid
                    == state.members[i].tid && after.members[i].state is Ready
            &&& after.active == state.active && after.next_tid == state.next_tid
                && after.max_threads == state.max_threads
        }),
{
}

} // verus!
