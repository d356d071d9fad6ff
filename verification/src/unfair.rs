//! A scheduler that is fair between threads, not between processes. A thread that has used
//! up its time slice waits until its generation is the one that all others have reached.
use vstd::prelude::*;

use crate::job::Pid;
use crate::lifecycle::Tid;

verus! {

/// How long a thread may run, in milliseconds.
pub const QUANTUM: usize = 20;

pub const PAGE_SIZE: u64 = 4096;

/// The stack of a thread, in bytes.
pub const THREAD_STACK_SIZE: u64 = 0x80_0000;

/// The place for a thread's registers, in bytes.
pub const TRAPFRAME_SIZE: u64 = 1024;

/// How many of them a page holds.
pub const TRAPFRAME_HOLD: u64 = 4;

/// The half of the address space that an address lies in.
#[derive(Clone, Copy, Debug, PartialEq, Eq, Structural)]
pub enum AddressSpace {
    Invalid,
    User,
    Kernel,
}

/// What an address of a process belongs to.
#[derive(Clone, Copy, Debug, PartialEq, Eq, Structural)]
pub enum ProcessAddressRegion {
    Invalid,
    Program,
    Heap,
    /// The stack of the thread with this number.
    Stack(Tid),
    /// The registers, counted in places downwards from the trampoline.
    TrapFrame(Tid),
}

/// Where things are in a process. The trampoline page is the highest; the places for
/// registers go down from it, and the stacks go down from their own start.
#[derive(Clone, Copy, Debug, PartialEq, Eq, Structural)]
pub struct ProcessLayout {
    pub trampoline: u64,
    pub stack_point: u64,
    pub break_point: u64,
    pub thread_count: u64,
}

/// What an address belongs to, given the half of the address space that it lies in.
pub open spec fn region_of(
    layout: ProcessLayout,
    addr: u64,
    space: AddressSpace,
) -> ProcessAddressRegion {
    match space {
        AddressSpace::Invalid => ProcessAddressRegion::Invalid,
        AddressSpace::Kernel => ProcessAddressRegion::TrapFrame(
            ((layout.trampoline - addr) / TRAPFRAME_SIZE as int) as u64,
        ),
        AddressSpace::User => if addr < layout.break_point {
            ProcessAddressRegion::Program
        } else {
            let number = (layout.stack_point - addr - 1) / THREAD_STACK_SIZE as int;
            if number < layout.thread_count {
                ProcessAddressRegion::Stack(number as u64)
            } else {
                ProcessAddressRegion::Heap
            }
        },
    }
}

/// An address is one that a process with this layout can have: registers lie below the
/// trampoline, and what the program can reach lies below the stacks' start.
pub open spec fn within(layout: ProcessLayout, addr: u64, space: AddressSpace) -> bool {
    &&& space is Kernel ==> addr <= layout.trampoline
    &&& space is User && addr >= layout.break_point ==> addr < layout.stack_point
}

impl ProcessLayout {
    pub fn new(trampoline: u64, stack: u64, heap: u64) -> (r: ProcessLayout)
        ensures
            r == (ProcessLayout {
                trampoline,
                stack_point: stack,
                break_point: heap,
                thread_count: 1,
            }),
    {
        ProcessLayout { trampoline, stack_point: stack, break_point: heap, thread_count: 1 }
    }

    /// What an address belongs to.
    pub fn is_address_in(&self, addr: u64, space: AddressSpace) -> (r: ProcessAddressRegion)
        requires
            within(*self, addr, space),
        ensures
            r == region_of(*self, addr, space),
    {
        match space {
            AddressSpace::Invalid => ProcessAddressRegion::Invalid,
            AddressSpace::Kernel => {
                ProcessAddressRegion::TrapFrame((self.trampoline - addr) / TRAPFRAME_SIZE)
            },
            AddressSpace::User => {
                if addr < self.break_point {
                    return ProcessAddressRegion::Program;
                }
                let number: u64 = (self.stack_point - addr - 1) / THREAD_STACK_SIZE;
                if number < self.thread_count {
                    ProcessAddressRegion::Stack(number)
                } else {
                    ProcessAddressRegion::Heap
                }
            },
        }
    }
}

/// Where the registers of a thread are. The page below the trampoline is the first, and
/// each page is filled upwards.
pub open spec fn trapframe_address(trampoline: u64, id: Tid) -> int {
    (trampoline / PAGE_SIZE - 1 - id / TRAPFRAME_HOLD) * PAGE_SIZE + (id % TRAPFRAME_HOLD)
        * TRAPFRAME_SIZE
}

/// Where the stack of a thread begins.
pub open spec fn stack_address(stack: u64, id: Tid) -> int {
    stack - id * THREAD_STACK_SIZE - 1
}

/// There is a place for the registers and the stack of a thread.
pub open spec fn has_place(layout: ProcessLayout, id: Tid) -> bool {
    &&& id / TRAPFRAME_HOLD + 1 <= layout.trampoline / PAGE_SIZE
    &&& id * THREAD_STACK_SIZE + 1 <= layout.stack_point
}

/// Where the registers of a thread are.
pub fn address_of_trapframe(trampoline: u64, id: Tid) -> (r: u64)
    requires
        id / TRAPFRAME_HOLD + 1 <= trampoline / PAGE_SIZE,
    ensures
        r == trapframe_address(trampoline, id),
{
    let start_page: u64 = trampoline / PAGE_SIZE - 1;
    let block: u64 = id / TRAPFRAME_HOLD;
    let index: u64 = id % TRAPFRAME_HOLD;
    (start_page - block) * PAGE_SIZE + index * TRAPFRAME_SIZE
}

/// Where the stack of a thread begins.
pub fn address_of_stack(stack: u64, id: Tid) -> (r: u64)
    requires
        id * THREAD_STACK_SIZE + 1 <= stack,
    ensures
        r == stack_address(stack, id),
{
    stack - id * THREAD_STACK_SIZE - 1
}

/// The stack of a thread is its own: every address of it is found to belong to the thread.
pub proof fn stack_belongs_to_its_thread(layout: ProcessLayout, id: Tid, addr: u64)
    requires
        id < layout.thread_count,
        layout.break_point <= addr < layout.stack_point,
        stack_address(layout.stack_point, id) - THREAD_STACK_SIZE < addr <= stack_address(
            layout.stack_point,
            id,
        ),
    ensures
        region_of(layout, addr, AddressSpace::User) == ProcessAddressRegion::Stack(id),
{
    let down = layout.stack_point - addr - 1;
    assert(down / 0x80_0000 == id) by (nonlinear_arith)
        requires
            id * 0x80_0000 <= down < id * 0x80_0000 + 0x80_0000,
    ;
}

/// The places for the registers of two threads do not overlap, and all lie below the
/// trampoline.
pub proof fn trapframes_are_apart(trampoline: u64, a: Tid, b: Tid)
    requires
        a != b,
    ensures
        trapframe_address(trampoline, a) + TRAPFRAME_SIZE <= trapframe_address(trampoline, b)
            || trapframe_address(trampoline, b) + TRAPFRAME_SIZE <= trapframe_address(
            trampoline,
            a,
        ),
        trapframe_address(trampoline, a) + TRAPFRAME_SIZE <= trampoline,
{
}

/// Whether a thread can run.
#[derive(Clone, Copy, Debug, PartialEq, Eq, Structural)]
pub enum ExecutionState {
    Ready,
    Running,
    /// It waits for something.
    Waiting,
}

/// Whether a process can run.
#[derive(Clone, Copy, Debug, PartialEq, Eq, Structural)]
pub enum ProcessHealth {
    Healthy,
    Dead,
}

/// A thread, as the scheduler sees it.
#[derive(Clone, Copy, Debug, PartialEq, Eq, Structural)]
pub struct ThreadCell {
    pub id: Tid,
    pub state: ExecutionState,
    pub generation: usize,
    pub last_tick_time: usize,
    /// How long it has run of its time slice.
    pub timeslice: usize,
    pub trapframe: u64,
    /// A core has it.
    pub held: bool,
}

/// What looking at the slice of a thread does to it and to the generation of all.
#[verifier::ext_equal]
pub struct Growth {
    pub cell: ThreadCell,
    pub generation: usize,
    pub may_run: bool,
}

/// A thread with time left may run. One without starts a new slice, and may run if its
/// generation is the one that all have reached; it is then in the next. Otherwise all have
/// reached its generation at least.
pub open spec fn grown(cell: ThreadCell, generation: usize) -> Growth {
    if cell.timeslice < QUANTUM {
        Growth { cell, generation, may_run: true }
    } else if generation == cell.generation {
        Growth {
            cell: ThreadCell {
                timeslice: 0,
                generation: (cell.generation + 1) as usize,
                ..cell
            },
            generation,
            may_run: true,
        }
    } else {
        Growth {
            cell: ThreadCell { timeslice: 0, ..cell },
            generation: if generation < cell.generation {
                cell.generation
            } else {
                generation
            },
            may_run: false,
        }
    }
}

/// A thread that may run has time left.
pub proof fn running_thread_has_time(cell: ThreadCell, generation: usize)
    ensures
        grown(cell, generation).may_run ==> grown(cell, generation).cell.timeslice < QUANTUM,
{
}

/// A thread is turned away at most once for its generation: when it is looked at again
/// it may run.
pub proof fn turned_away_once(cell: ThreadCell, generation: usize, later: usize)
    ensures
        !grown(cell, generation).may_run ==> grown(
            grown(cell, generation).cell,
            later,
        ).may_run,
{
}

impl ThreadCell {
    pub fn new(id: Tid, generation: usize, trapframe: u64) -> (r: ThreadCell)
        ensures
            r == (ThreadCell {
                id,
                state: ExecutionState::Ready,
                generation,
                last_tick_time: 0,
                timeslice: 0,
                trapframe,
                held: false,
            }),
    {
        ThreadCell {
            id,
            state: ExecutionState::Ready,
            generation,
            last_tick_time: 0,
            timeslice: 0,
            trapframe,
            held: false,
        }
    }

    /// Whether the thread may run, by its slice and the generation of all.
    pub fn check_grow(&mut self, generation: &mut usize) -> (r: bool)
        requires
            old(self).generation < usize::MAX,
        ensures
            (Growth { cell: *final(self), generation: *final(generation), may_run: r }) == grown(
                *old(self),
                *old(generation),
            ),
    {
        if self.timeslice < QUANTUM {
            return true;
        }
        self.timeslice = 0;
        let reached: usize = *generation;
        if reached < self.generation {
            *generation = self.generation;
        }
        if reached == self.generation {
            self.generation = self.generation + 1;
            true
        } else {
            false
        }
    }

    /// Puts the thread in the next generation.
    pub fn grow(&mut self)
        requires
            old(self).generation < usize::MAX,
        ensures
            *final(self) == (ThreadCell {
                generation: (old(self).generation + 1) as usize,
                ..*old(self)
            }),
    {
        self.generation = self.generation + 1;
    }
}

/// A process, as the scheduler sees it, with its threads in the order of their numbers.
pub struct ProcessCell {
    id: Pid,
    parent: Pid,
    layout: ProcessLayout,
    health: ProcessHealth,
    /// A signal waits that the main thread can handle at once.
    signal_ready: bool,
    threads: Vec<ThreadCell>,
}

/// The same as a value.
#[verifier::ext_equal]
pub struct ProcessCellView {
    pub id: Pid,
    pub parent: Pid,
    pub layout: ProcessLayout,
    pub health: ProcessHealth,
    pub signal_ready: bool,
    pub threads: Seq<ThreadCell>,
}

/// What the registers of a new thread are made from.
#[derive(Clone, Copy, Debug, PartialEq, Eq, Structural)]
pub struct ThreadStart {
    pub tid: Tid,
    /// The place for its registers; its page has to be there.
    pub trapframe: u64,
    pub stack: u64,
    pub trampoline: u64,
    pub pid: Pid,
    pub parent: Pid,
}

/// The last thread of the unbroken run of numbers that begins at `from`.
pub open spec fn end_of_run(threads: Seq<ThreadCell>, from: int) -> int
    decreases threads.len() - from,
{
    if 0 <= from < threads.len() - 1 && threads[from].id + 1 == threads[from + 1].id {
        end_of_run(threads, from + 1)
    } else {
        from
    }
}

/// The number of the next thread, and where it goes.
pub open spec fn next_tid(threads: Seq<ThreadCell>) -> int {
    if threads.len() == 0 {
        0
    } else {
        threads[end_of_run(threads, 0)].id + 1
    }
}

/// Where the next thread goes.
pub open spec fn next_place(threads: Seq<ThreadCell>) -> int {
    if threads.len() == 0 {
        0
    } else {
        end_of_run(threads, 0) + 1
    }
}

/// Threads are in the order of their numbers, which begin at zero.
pub open spec fn numbered(threads: Seq<ThreadCell>) -> bool {
    &&& threads.len() > 0 ==> threads[0].id == 0
    &&& forall|i: int, j: int|
        0 <= i < j < threads.len() ==> (#[trigger] threads[i]).id < (#[trigger] threads[j]).id
}

proof fn run_facts(threads: Seq<ThreadCell>, from: int)
    requires
        numbered(threads),
        0 <= from < threads.len(),
        threads[from].id == from,
    ensures
        from <= end_of_run(threads, from) < threads.len(),
        threads[end_of_run(threads, from)].id == end_of_run(threads, from),
        end_of_run(threads, from) + 1 < threads.len() ==> threads[end_of_run(threads, from)
            + 1].id > end_of_run(threads, from) + 1,
    decreases threads.len() - from,
{
    if from < threads.len() - 1 && threads[from].id + 1 == threads[from + 1].id {
        run_facts(threads, from + 1);
    }
}

/// The next thread's number is the smallest that no thread has, and its place keeps the
/// order.
pub proof fn next_tid_is_the_smallest_free(threads: Seq<ThreadCell>, cell: ThreadCell)
    requires
        numbered(threads),
        cell.id == next_tid(threads),
    ensures
        forall|i: int| 0 <= i < threads.len() ==> (#[trigger] threads[i]).id != cell.id,
        forall|n: Tid| n < cell.id ==> #[trigger] has_number(threads, n),
        0 <= next_place(threads) <= threads.len(),
        next_place(threads) == cell.id,
        numbered(threads.insert(next_place(threads), cell)),
{
    if threads.len() > 0 {
        run_facts(threads, 0);
        let end = end_of_run(threads, 0);
        run_is_unbroken(threads, 0);
        assert forall|n: Tid| n < cell.id implies #[trigger] has_number(threads, n) by {
            assert(threads[n as int].id == n);
        }
        assert forall|i: int| 0 <= i < threads.len() implies (#[trigger] threads[i]).id
            != cell.id by {
            if i > end + 1 {
                assert(threads[end + 1].id < threads[i].id);
            } else if i < end {
                assert(threads[i].id < threads[end].id);
            }
        }
        let after = threads.insert(end + 1, cell);
        assert forall|i: int, j: int| 0 <= i < j < after.len() implies (#[trigger] after[i]).id < (
        #[trigger] after[j]).id by {
            if i < end + 1 && j == end + 1 {
                assert(after[i] == threads[i]);
                assert(i == end || threads[i].id < threads[end].id);
            } else if i == end + 1 {
                assert(after[j] == threads[j - 1]);
                assert(j - 1 == end + 1 || threads[end + 1].id < threads[j - 1].id);
            } else if i > end + 1 {
                assert(after[i] == threads[i - 1] && after[j] == threads[j - 1]);
            } else if j > end + 1 {
                assert(after[i] == threads[i] && after[j] == threads[j - 1]);
            } else {
                assert(after[i] == threads[i] && after[j] == threads[j]);
            }
        }
        assert(after[0] == threads[0]);
    }
}

/// A thread has number `n`.
pub open spec fn has_number(threads: Seq<ThreadCell>, n: Tid) -> bool {
    exists|i: int| 0 <= i < threads.len() && (#[trigger] threads[i]).id == n
}

proof fn run_is_unbroken(threads: Seq<ThreadCell>, from: int)
    requires
        numbered(threads),
        0 <= from < threads.len(),
        threads[from].id == from,
    ensures
        forall|i: int| from <= i <= end_of_run(threads, from) ==> (#[trigger] threads[i]).id == i,
    decreases threads.len() - from,
{
    if from < threads.len() - 1 && threads[from].id + 1 == threads[from + 1].id {
        run_is_unbroken(threads, from + 1);
    }
}

impl View for ProcessCell {
    type V = ProcessCellView;

    closed spec fn view(&self) -> ProcessCellView {
        ProcessCellView {
            id: self.id,
            parent: self.parent,
            layout: self.layout,
            health: self.health,
            signal_ready: self.signal_ready,
            threads: self.threads@,
        }
    }
}

impl ProcessCell {
    pub open spec fn wf(&self) -> bool {
        numbered(self@.threads)
    }

    /// A process without threads; the trampoline is mapped for it.
    pub fn new(pid: Pid, parent: Pid, layout: ProcessLayout) -> (r: ProcessCell)
        ensures
            r.wf(),
            r@ == (ProcessCellView {
                id: pid,
                parent,
                layout,
                health: ProcessHealth::Healthy,
                signal_ready: false,
                threads: Seq::empty(),
            }),
    {
        ProcessCell {
            id: pid,
            parent,
            layout,
            health: ProcessHealth::Healthy,
            signal_ready: false,
            threads: Vec::new(),
        }
    }

    /// The thread after `current`, unless that is the last.
    pub fn move_next(&self, current: usize) -> (r: Option<usize>)
        requires
            current < self@.threads.len(),
        ensures
            r == if current + 1 < self@.threads.len() {
                Some((current + 1) as usize)
            } else {
                None
            },
    {
        assert(self.threads.len() == self@.threads.len());
        if current + 1 < self.threads.len() {
            Some(current + 1)
        } else {
            None
        }
    }

    /// The first thread from `current` on that is what is looked for.
    pub fn move_next_until<F: Fn(&ThreadCell) -> bool>(&self, current: usize, pred: F) -> (r:
        Option<usize>)
        requires
            current < self@.threads.len(),
            forall|cell: &ThreadCell| #[trigger] pred.requires((cell,)),
        ensures
            match r {
                Some(i) => current <= i < self@.threads.len() && pred.ensures(
                    (&self@.threads[i as int],),
                    true,
                ) && forall|j: int|
                    current <= j < i ==> pred.ensures((&#[trigger] self@.threads[j],), false),
                None => forall|j: int|
                    current <= j < self@.threads.len() ==> pred.ensures(
                        (&#[trigger] self@.threads[j],),
                        false,
                    ),
            },
    {
        let mut i: usize = current;
        while i < self.threads.len()
            invariant
                current <= i <= self.threads.len(),
                forall|cell: &ThreadCell| #[trigger] pred.requires((cell,)),
                forall|j: int|
                    current <= j < i ==> pred.ensures((&#[trigger] self@.threads[j],), false),
            decreases self.threads.len() - i,
        {
            if pred(&self.threads[i]) {
                return Some(i);
            }
            i = i + 1;
        }
        None
    }

    /// How many threads from the first on are what is looked for, without a break.
    pub fn count_if_match_until<F: Fn(&ThreadCell) -> bool>(&self, pred: F) -> (r: usize)
        requires
            forall|cell: &ThreadCell| #[trigger] pred.requires((cell,)),
        ensures
            r <= self@.threads.len(),
            forall|j: int| 0 <= j < r ==> pred.ensures((&#[trigger] self@.threads[j],), true),
            r < self@.threads.len() ==> pred.ensures((&self@.threads[r as int],), false),
    {
        let mut count: usize = 0;
        while count < self.threads.len()
            invariant
                count <= self.threads.len(),
                forall|cell: &ThreadCell| #[trigger] pred.requires((cell,)),
                forall|j: int|
                    0 <= j < count ==> pred.ensures((&#[trigger] self@.threads[j],), true),
            decreases self.threads.len() - count,
        {
            if !pred(&self.threads[count]) {
                return count;
            }
            count = count + 1;
        }
        count
    }

    /// The thread behind which there is a gap in the numbers, or the last.
    fn find_gap(&self) -> (r: Option<usize>)
        requires
            self.wf(),
        ensures
            r == if self@.threads.len() == 0 {
                None
            } else {
                Some(end_of_run(self@.threads, 0) as usize)
            },
            r matches Some(i) ==> i == end_of_run(self@.threads, 0) && i < self@.threads.len()
                && self@.threads[i as int].id == i,
    {
        if self.threads.len() == 0 {
            return None;
        }
        let mut current: usize = 0;
        while current + 1 < self.threads.len() && self.threads[current].id + 1 == self.threads[
        current + 1].id
            invariant
                self.wf(),
                current < self.threads.len(),
                self.threads[current as int].id == current,
                end_of_run(self@.threads, 0) == end_of_run(self@.threads, current as int),
            decreases self.threads.len() - current,
        {
            current = current + 1;
        }
        Some(current)
    }

    /// The number that the next thread gets.
    pub fn free_tid(&self) -> (r: Tid)
        requires
            self.wf(),
        ensures
            r == next_tid(self@.threads),
    {
        match self.find_gap() {
            Some(gap) => {
                assert(self.threads.len() == self@.threads.len());
                self.threads[gap].id + 1
            },
            None => 0,
        }
    }

    /// Adds a thread, under the smallest number that is free.
    pub fn add(&mut self, generation: usize) -> (r: ThreadStart)
        requires
            old(self).wf(),
            has_place(old(self)@.layout, next_tid(old(self)@.threads) as u64),
        ensures
            final(self).wf(),
            r.tid == next_tid(old(self)@.threads),
            r.trapframe == trapframe_address(old(self)@.layout.trampoline, r.tid),
            r.stack == stack_address(old(self)@.layout.stack_point, r.tid),
            r.trampoline == old(self)@.layout.trampoline,
            r.pid == old(self)@.id,
            r.parent == old(self)@.parent,
            final(self)@ == (ProcessCellView {
                threads: old(self)@.threads.insert(
                    next_place(old(self)@.threads),
                    ThreadCell {
                        id: r.tid,
                        state: ExecutionState::Ready,
                        generation,
                        last_tick_time: 0,
                        timeslice: 0,
                        trapframe: r.trapframe,
                        held: false,
                    },
                ),
                ..old(self)@
            }),
    {
        let gap = self.find_gap();
        let tid: Tid = self.free_tid();
        let trapframe: u64 = address_of_trapframe(self.layout.trampoline, tid);
        let stack: u64 = address_of_stack(self.layout.stack_point, tid);
        let cell = ThreadCell::new(tid, generation, trapframe);
        proof {
            next_tid_is_the_smallest_free(self@.threads, cell);
        }
        match gap {
            Some(i) => {
                assert(self.threads.len() == self@.threads.len());
                self.threads.insert(i + 1, cell);
            },
            None => {
                self.threads.push(cell);
                assert(self@.threads =~= old(self)@.threads.insert(0, cell));
            },
        }
        ThreadStart {
            tid,
            trapframe,
            stack,
            trampoline: self.layout.trampoline,
            pid: self.id,
            parent: self.parent,
        }
    }
}

/// All processes, in the order in which they came.
pub struct ProcessTable {
    /// The generation that all threads have reached.
    generation: usize,
    next_pid: Pid,
    processes: Vec<ProcessCell>,
}

/// The same as a value.
#[verifier::ext_equal]
pub struct TableView {
    pub generation: usize,
    pub next_pid: Pid,
    pub processes: Seq<ProcessCellView>,
}

impl View for ProcessTable {
    type V = TableView;

    closed spec fn view(&self) -> TableView {
        TableView {
            generation: self.generation,
            next_pid: self.next_pid,
            processes: self.processes@.map_values(|p: ProcessCell| p@),
        }
    }
}

/// A thread: the place of its process, and its own there.
#[derive(Clone, Copy, Debug, PartialEq, Eq, Structural)]
pub struct Place {
    pub process: usize,
    pub thread: usize,
}

impl TableView {
    /// Every process has a thread, identities grow from process to process, and numbers
    /// from thread to thread.
    pub open spec fn sound(self) -> bool {
        &&& forall|i: int|
            0 <= i < self.processes.len() ==> numbered((#[trigger] self.processes[i]).threads)
                && self.processes[i].threads.len() > 0 && self.processes[i].threads.len()
                <= usize::MAX && self.processes[i].id < self.next_pid
        &&& forall|i: int, j: int|
            0 <= i < j < self.processes.len() ==> (#[trigger] self.processes[i]).id < (
            #[trigger] self.processes[j]).id
        &&& self.processes.len() <= usize::MAX
    }

    pub open spec fn has(self, place: Place) -> bool {
        place.process < self.processes.len() && place.thread
            < self.processes[place.process as int].threads.len()
    }

    pub open spec fn cell(self, place: Place) -> ThreadCell {
        self.processes[place.process as int].threads[place.thread as int]
    }

    pub open spec fn with_cell(self, place: Place, cell: ThreadCell) -> TableView {
        let process = self.processes[place.process as int];
        TableView {
            processes: self.processes.update(
                place.process as int,
                ProcessCellView {
                    threads: process.threads.update(place.thread as int, cell),
                    ..process
                },
            ),
            ..self
        }
    }

    pub open spec fn with_signal_taken(self, i: int) -> TableView {
        TableView {
            processes: self.processes.update(
                i,
                ProcessCellView { signal_ready: false, ..self.processes[i] },
            ),
            ..self
        }
    }

    /// The thread after this one: the next of its process, else the first of the next
    /// process. The first process follows the last.
    pub open spec fn next(self, place: Place) -> Place {
        if place.thread + 1 < self.processes[place.process as int].threads.len() {
            Place { process: place.process, thread: (place.thread + 1) as usize }
        } else if place.process + 1 < self.processes.len() {
            Place { process: (place.process + 1) as usize, thread: 0 }
        } else {
            Place { process: 0, thread: 0 }
        }
    }

    /// How many threads the first `count` processes have.
    pub open spec fn threads_before(self, count: int) -> nat
        decreases count,
    {
        if count <= 0 {
            0
        } else {
            self.threads_before(count - 1) + self.processes[count - 1].threads.len()
        }
    }

    /// How many threads there are.
    pub open spec fn thread_count(self) -> nat {
        self.threads_before(self.processes.len() as int)
    }

    /// How many threads come before this one.
    pub open spec fn rank(self, place: Place) -> nat {
        self.threads_before(place.process as int) + place.thread as nat
    }
}

proof fn threads_before_grows(table: TableView, a: int, b: int)
    requires
        0 <= a <= b,
    ensures
        table.threads_before(a) <= table.threads_before(b),
    decreases b - a,
{
    if a < b {
        threads_before_grows(table, a, b - 1);
    }
}

/// A thread is told by how many come before it.
pub proof fn ranks_differ(table: TableView, a: Place, b: Place)
    requires
        table.has(a),
        table.has(b),
    ensures
        table.rank(a) == table.rank(b) <==> a == b,
        table.rank(a) < table.thread_count(),
{
    threads_before_grows(table, a.process + 1, table.processes.len() as int);
    if a.process < b.process {
        threads_before_grows(table, a.process + 1, b.process as int);
    } else if b.process < a.process {
        threads_before_grows(table, b.process + 1, a.process as int);
    }
}

/// Going from thread to thread passes all of them in turn, and comes back to the first
/// behind the last.
pub proof fn next_passes_all(table: TableView, place: Place)
    requires
        table.sound(),
        table.has(place),
    ensures
        table.has(table.next(place)),
        table.rank(table.next(place)) == if table.rank(place) + 1 < table.thread_count() {
            table.rank(place) + 1
        } else {
            0
        },
{
    let next = table.next(place);
    assert(table.processes[0].threads.len() > 0);
    if next.process == place.process + 1 {
        assert(table.processes[next.process as int].threads.len() > 0);
    }
    assert(table.has(next));
    ranks_differ(table, next, next);
    ranks_differ(table, place, place);
    assert(table.threads_before(place.process + 1) == table.threads_before(place.process as int)
        + table.processes[place.process as int].threads.len());
    assert(table.threads_before(0) == 0);
}

/// Two tables with as many threads in each process.
pub open spec fn same_shape(a: TableView, b: TableView) -> bool {
    &&& a.processes.len() == b.processes.len()
    &&& forall|i: int|
        0 <= i < a.processes.len() ==> (#[trigger] a.processes[i]).threads.len()
            == b.processes[i].threads.len()
}

proof fn shape_decides(a: TableView, b: TableView, count: int)
    requires
        same_shape(a, b),
        count <= a.processes.len(),
    ensures
        a.threads_before(count) == b.threads_before(count),
    decreases count,
{
    if count > 0 {
        shape_decides(a, b, count - 1);
        assert(a.processes[count - 1].threads.len() == b.processes[count - 1].threads.len());
    }
}

/// The place of a process with this identity, from `from` on.
pub open spec fn position(processes: Seq<ProcessCellView>, pid: Pid, from: int) -> Option<int>
    decreases processes.len() - from,
{
    if from >= processes.len() {
        None
    } else if processes[from].id == pid {
        Some(from)
    } else {
        position(processes, pid, from + 1)
    }
}

/// Every process is found by its identity.
pub proof fn processes_are_found(table: TableView, i: int)
    requires
        table.sound(),
        0 <= i < table.processes.len(),
    ensures
        position(table.processes, table.processes[i].id, 0) == Some(i),
{
    found_from(table, i, 0);
}

proof fn found_from(table: TableView, i: int, from: int)
    requires
        table.sound(),
        0 <= from <= i < table.processes.len(),
    ensures
        position(table.processes, table.processes[i].id, from) == Some(i),
    decreases i - from,
{
    if from < i {
        assert(table.processes[from].id < table.processes[i].id);
        found_from(table, i, from + 1);
    }
}

/// How the next thread of a process starts.
pub open spec fn next_start(process: ProcessCellView) -> ThreadStart {
    let tid = next_tid(process.threads) as u64;
    ThreadStart {
        tid,
        trapframe: trapframe_address(process.layout.trampoline, tid) as u64,
        stack: stack_address(process.layout.stack_point, tid) as u64,
        trampoline: process.layout.trampoline,
        pid: process.id,
        parent: process.parent,
    }
}

/// A thread that has just been added.
pub open spec fn new_cell(start: ThreadStart, generation: usize) -> ThreadCell {
    ThreadCell {
        id: start.tid,
        state: ExecutionState::Ready,
        generation,
        last_tick_time: 0,
        timeslice: 0,
        trapframe: start.trapframe,
        held: false,
    }
}

/// How the main thread of a new process starts.
pub open spec fn main_start(pid: Pid, parent: Pid, top: u64, stack: u64) -> ThreadStart {
    let trampoline = (top - top % PAGE_SIZE) as u64;
    ThreadStart {
        tid: 0,
        trapframe: trapframe_address(trampoline, 0) as u64,
        stack: stack_address(stack, 0) as u64,
        trampoline,
        pid,
        parent,
    }
}

impl TableView {
    /// The table with a new process behind all others.
    pub open spec fn with_process(self, parent: Pid, top: u64, stack: u64, heap: u64) -> TableView {
        let start = main_start(self.next_pid, parent, top, stack);
        TableView {
            generation: self.generation,
            next_pid: (self.next_pid + 1) as u64,
            processes: self.processes.push(
                ProcessCellView {
                    id: self.next_pid,
                    parent,
                    layout: ProcessLayout {
                        trampoline: start.trampoline,
                        stack_point: stack,
                        break_point: heap,
                        thread_count: 1,
                    },
                    health: ProcessHealth::Healthy,
                    signal_ready: false,
                    threads: seq![new_cell(start, self.generation)],
                },
            ),
        }
    }

    /// The table with a new thread in process `i`, under the smallest number that is free.
    pub open spec fn with_thread(self, i: int) -> TableView {
        let process = self.processes[i];
        TableView {
            processes: self.processes.update(
                i,
                ProcessCellView {
                    threads: process.threads.insert(
                        next_place(process.threads),
                        new_cell(next_start(process), self.generation),
                    ),
                    ..process
                },
            ),
            ..self
        }
    }
}

impl ProcessTable {
    pub open spec fn wf(&self) -> bool {
        self@.sound()
    }

    pub fn new() -> (r: ProcessTable)
        ensures
            r.wf(),
            r@ == (TableView { generation: 0, next_pid: 1, processes: Seq::empty() }),
    {
        let r = ProcessTable { generation: 0, next_pid: 1, processes: Vec::new() };
        assert(r@.processes =~= Seq::empty());
        r
    }

    pub fn current_generation(&self) -> (r: usize)
        ensures
            r == self@.generation,
    {
        self.generation
    }

    /// A new process identity.
    pub fn new_pid(&mut self) -> (r: Pid)
        requires
            old(self)@.next_pid < u64::MAX,
        ensures
            r == old(self)@.next_pid,
            final(self)@ == (TableView { next_pid: (r + 1) as u64, ..old(self)@ }),
            old(self).wf() ==> final(self).wf(),
    {
        let pid: Pid = self.next_pid;
        self.next_pid = pid + 1;
        assert(self@.processes =~= old(self)@.processes);
        pid
    }

    /// Adds a process behind all others, with its main thread. A process without a parent is
    /// its own. `top` is the highest address, whose page is the trampoline.
    pub fn add(&mut self, parent: Option<Pid>, top: u64, stack: u64, heap: u64) -> (r: ThreadStart)
        requires
            old(self).wf(),
            old(self)@.next_pid < u64::MAX,
            old(self)@.processes.len() < usize::MAX,
            top >= 2 * PAGE_SIZE,
            stack > 0,
        ensures
            final(self).wf(),
            ({
                let above = match parent {
                    Some(pid) => pid,
                    None => old(self)@.next_pid,
                };
                &&& r == main_start(old(self)@.next_pid, above, top, stack)
                &&& final(self)@ == old(self)@.with_process(above, top, stack, heap)
            }),
    {
        let ghost before = self@;
        let pid: Pid = self.new_pid();
        let parent_id: Pid = match parent {
            Some(one) => one,
            None => pid,
        };
        let trampoline: u64 = top - top % PAGE_SIZE;
        let layout = ProcessLayout::new(trampoline, stack, heap);
        let mut cell = ProcessCell::new(pid, parent_id, layout);
        let start = cell.add(self.generation);
        let ghost added = cell@;
        self.processes.push(cell);
        proof {
            assert(added.threads =~= seq![added.threads[0]]);
            assert(self@.processes =~= before.processes.push(added));
        }
        start
    }

    /// The process after `current`; with `repeat`, the first follows the last.
    pub fn move_next_process(&self, current: usize, repeat: bool) -> (r: Option<usize>)
        requires
            current < self@.processes.len(),
        ensures
            r == if current + 1 < self@.processes.len() {
                Some((current + 1) as usize)
            } else if repeat {
                Some(0usize)
            } else {
                None
            },
    {
        assert(self.processes.len() == self@.processes.len());
        if current + 1 < self.processes.len() {
            Some(current + 1)
        } else if repeat {
            Some(0)
        } else {
            None
        }
    }

    /// The process with this identity.
    pub fn find_process(&self, pid: Pid) -> (r: Option<usize>)
        ensures
            match r {
                Some(i) => position(self@.processes, pid, 0) == Some(i as int) && i
                    < self@.processes.len(),
                None => position(self@.processes, pid, 0) is None,
            },
    {
        let mut i: usize = 0;
        while i < self.processes.len()
            invariant
                i <= self.processes.len(),
                self.processes.len() == self@.processes.len(),
                position(self@.processes, pid, 0) == position(self@.processes, pid, i as int),
            decreases self.processes.len() - i,
        {
            assert(self.processes[i as int]@ == self@.processes[i as int]);
            if self.processes[i].id == pid {
                return Some(i);
            }
            i = i + 1;
        }
        None
    }

    /// The identities of all processes, in order.
    pub fn snapshot(&self) -> (r: Vec<Pid>)
        ensures
            r@ == self@.processes.map_values(|p: ProcessCellView| p.id),
    {
        let mut ids: Vec<Pid> = Vec::new();
        let mut i: usize = 0;
        while i < self.processes.len()
            invariant
                i <= self.processes.len(),
                self.processes.len() == self@.processes.len(),
                ids@ == self@.processes.take(i as int).map_values(|p: ProcessCellView| p.id),
            decreases self.processes.len() - i,
        {
            assert(self.processes[i as int]@ == self@.processes[i as int]);
            ids.push(self.processes[i].id);
            i = i + 1;
            assert(ids@ =~= self@.processes.take(i as int).map_values(
                |p: ProcessCellView| p.id,
            ));
        }
        assert(self@.processes.take(i as int) =~= self@.processes);
        ids
    }

    /// The thread after this one.
    pub fn move_next_thread(&self, place: Place) -> (r: Place)
        requires
            self.wf(),
            self@.has(place),
        ensures
            r == self@.next(place),
            self@.has(r),
    {
        proof {
            next_passes_all(self@, place);
            assert(self.processes[place.process as int]@ == self@.processes[place.process as int]);
        }
        match self.processes[place.process].move_next(place.thread) {
            Some(thread) => Place { process: place.process, thread },
            None => match self.move_next_process(place.process, true) {
                Some(process) => Place { process, thread: 0 },
                None => Place { process: 0, thread: 0 },
            },
        }
    }

    /// Adds a thread to a process.
    pub fn add_thread(&mut self, i: usize) -> (r: ThreadStart)
        requires
            old(self).wf(),
            i < old(self)@.processes.len(),
            old(self)@.processes[i as int].threads.len() < usize::MAX,
            has_place(
                old(self)@.processes[i as int].layout,
                next_tid(old(self)@.processes[i as int].threads) as u64,
            ),
        ensures
            final(self).wf(),
            r == next_start(old(self)@.processes[i as int]),
            final(self)@ == old(self)@.with_thread(i as int),
    {
        let ghost before = self@;
        let generation: usize = self.generation;
        assert(self.processes[i as int]@ == before.processes[i as int]);
        let start = self.processes[i].add(generation);
        let ghost process = self.processes[i as int]@;
        proof {
            run_facts(before.processes[i as int].threads, 0);
            assert(process.threads.len() == before.processes[i as int].threads.len() + 1);
            assert(self@.processes =~= before.processes.update(i as int, process));
        }
        start
    }

    /// Sets whether a process has a signal that its main thread can handle at once.
    pub fn set_signal_ready(&mut self, i: usize, ready: bool)
        requires
            old(self).wf(),
            i < old(self)@.processes.len(),
        ensures
            final(self).wf(),
            final(self)@ == (TableView {
                processes: old(self)@.processes.update(
                    i as int,
                    ProcessCellView {
                        signal_ready: ready,
                        ..old(self)@.processes[i as int]
                    },
                ),
                ..old(self)@
            }),
    {
        let ghost before = self@;
        assert(self.processes[i as int]@ == before.processes[i as int]);
        self.processes[i].signal_ready = ready;
        proof {
            assert(self@.processes =~= before.processes.update(
                i as int,
                self.processes[i as int]@,
            ));
        }
    }

    /// Sets whether a process can run.
    pub fn set_health(&mut self, i: usize, health: ProcessHealth)
        requires
            old(self).wf(),
            i < old(self)@.processes.len(),
        ensures
            final(self).wf(),
            final(self)@ == (TableView {
                processes: old(self)@.processes.update(
                    i as int,
                    ProcessCellView { health, ..old(self)@.processes[i as int] },
                ),
                ..old(self)@
            }),
    {
        let ghost before = self@;
        assert(self.processes[i as int]@ == before.processes[i as int]);
        self.processes[i].health = health;
        proof {
            assert(self@.processes =~= before.processes.update(
                i as int,
                self.processes[i as int]@,
            ));
        }
    }

    pub fn cell(&self, place: Place) -> (r: ThreadCell)
        requires
            self@.has(place),
        ensures
            r == self@.cell(place),
    {
        assert(self.processes[place.process as int]@ == self@.processes[place.process as int]);
        self.processes[place.process].threads[place.thread]
    }

    /// Changes what is known of a thread; its number stays.
    pub fn set_cell(&mut self, place: Place, cell: ThreadCell)
        requires
            old(self).wf(),
            old(self)@.has(place),
            cell.id == old(self)@.cell(place).id,
        ensures
            final(self).wf(),
            final(self)@ == old(self)@.with_cell(place, cell),
    {
        let ghost before = self@;
        assert(self.processes[place.process as int]@ == before.processes[place.process as int]);
        self.processes[place.process].threads.set(place.thread, cell);
        proof {
            assert(self@.processes =~= before.with_cell(place, cell).processes);
        }
    }
}

/// A thread that was picked to run.
#[derive(Clone, Copy, Debug, PartialEq, Eq, Structural)]
pub struct Pick {
    pub place: Place,
    /// It runs the handler of a signal.
    pub for_signal: bool,
}

/// What looking at a thread comes to.
#[verifier::ext_equal]
pub struct Looked {
    pub table: TableView,
    pub pick: Option<Pick>,
}

/// The process is healthy, and the thread ready and with no core.
pub open spec fn eligible(table: TableView, place: Place) -> bool {
    &&& table.processes[place.process as int].health is Healthy
    &&& table.cell(place).state is Ready
    &&& !table.cell(place).held
}

/// Looks whether a thread can run, and if so gives it to this core. A main thread with a
/// signal to handle goes first, whatever its slice is; any other goes by its slice.
pub open spec fn looked_at(table: TableView, place: Place) -> Looked {
    let process = table.processes[place.process as int];
    let cell = table.cell(place);
    if !eligible(table, place) {
        Looked { table, pick: None }
    } else if cell.id == 0 && process.signal_ready {
        Looked {
            table: table.with_cell(
                place,
                ThreadCell {
                    generation: (cell.generation + 1) as usize,
                    state: ExecutionState::Running,
                    held: true,
                    ..cell
                },
            ).with_signal_taken(place.process as int),
            pick: Some(Pick { place, for_signal: true }),
        }
    } else {
        let growth = grown(cell, table.generation);
        let reached = TableView { generation: growth.generation, ..table };
        if growth.may_run {
            Looked {
                table: reached.with_cell(
                    place,
                    ThreadCell { state: ExecutionState::Running, held: true, ..growth.cell },
                ),
                pick: Some(Pick { place, for_signal: false }),
            }
        } else {
            Looked { table: reached.with_cell(place, growth.cell), pick: None }
        }
    }
}

/// Looks at `left` threads in turn, until one can run.
pub open spec fn walked(table: TableView, place: Place, left: nat) -> Looked
    decreases left,
{
    if left == 0 {
        Looked { table, pick: None }
    } else {
        let looked = looked_at(table, place);
        if looked.pick is Some {
            looked
        } else {
            walked(looked.table, looked.table.next(place), (left - 1) as nat)
        }
    }
}

/// The generation of every thread can be followed by another.
pub open spec fn can_grow(table: TableView) -> bool {
    forall|place: Place| #[trigger]
        table.has(place) ==> table.cell(place).generation < usize::MAX
}

/// Looking at a thread that is not picked changes nothing else.
proof fn looking_keeps(table: TableView, place: Place)
    requires
        table.sound(),
        table.has(place),
    ensures
        ({
            let looked = looked_at(table, place);
            &&& same_shape(table, looked.table)
            &&& looked.table.sound()
            &&& forall|other: Place| #[trigger]
                looked.table.has(other) ==> table.has(other) && (other != place
                    ==> looked.table.cell(other) == table.cell(other))
            &&& looked.pick is None ==> forall|i: int|
                0 <= i < table.processes.len() ==> (#[trigger] looked.table.processes[i]).health
                    == table.processes[i].health && looked.table.processes[i].signal_ready
                    == table.processes[i].signal_ready
            &&& looked.pick is None && can_grow(table) ==> can_grow(looked.table)
        }),
{
    let looked = looked_at(table, place);
    let process = table.processes[place.process as int];
    let after = looked.table;
    assert(forall|i: int|
        0 <= i < table.processes.len() && i != place.process ==> (#[trigger] after.processes[i])
            == table.processes[i]);
    assert(after.processes[place.process as int].threads.len() == process.threads.len());
    assert(forall|j: int|
        0 <= j < process.threads.len() ==> (#[trigger] after.processes[place.process as int].threads[j]).id
            == process.threads[j].id);
    assert(numbered(after.processes[place.process as int].threads));
    assert forall|other: Place| #[trigger] after.has(other) implies table.has(other) && (other
        != place ==> after.cell(other) == table.cell(other)) by {
        if other.process != place.process {
            assert(after.processes[other.process as int] == table.processes[other.process as int]);
        }
    }
    if looked.pick is None && can_grow(table) {
        assert forall|other: Place| #[trigger] after.has(other) implies after.cell(
            other,
        ).generation < usize::MAX by {
            assert(table.has(other));
        }
    }
}

/// How many steps it takes from one thread to another.
pub open spec fn steps_between(table: TableView, from: Place, to: Place) -> int {
    if table.rank(from) <= table.rank(to) {
        table.rank(to) - table.rank(from)
    } else {
        table.rank(to) + table.thread_count() - table.rank(from)
    }
}

/// If a thread is ready, healthy and free, and has time left, then some thread is picked.
pub proof fn walk_finds_one(table: TableView, place: Place, target: Place, left: nat)
    requires
        table.sound(),
        table.has(place),
        table.has(target),
        eligible(table, target),
        table.cell(target).timeslice < QUANTUM,
        steps_between(table, place, target) < left,
    ensures
        walked(table, place, left).pick is Some,
    decreases left,
{
    ranks_differ(table, place, target);
    ranks_differ(table, target, place);
    let looked = looked_at(table, place);
    if looked.pick is None {
        looking_keeps(table, place);
        assert(place != target);
        let after = looked.table;
        assert(after.processes[target.process as int].threads.len()
            == table.processes[target.process as int].threads.len());
        assert(after.processes[place.process as int].threads.len()
            == table.processes[place.process as int].threads.len());
        assert(after.has(target) && after.has(place));
        shape_decides(table, after, table.processes.len() as int);
        shape_decides(table, after, target.process as int);
        shape_decides(table, after, place.process as int);
        next_passes_all(after, place);
        let next = after.next(place);
        shape_decides(table, after, next.process as int);
        walk_finds_one(after, next, target, (left - 1) as nat);
    }
}

/// A thread that is picked runs on this core alone, and unless it handles a signal it has
/// time left.
pub proof fn picked_thread_runs(table: TableView, place: Place, left: nat)
    requires
        table.sound(),
        table.has(place),
    ensures
        ({
            let end = walked(table, place, left);
            end.pick matches Some(pick) ==> {
                &&& end.table.has(pick.place)
                &&& end.table.cell(pick.place).state is Running
                &&& end.table.cell(pick.place).held
                &&& !pick.for_signal ==> end.table.cell(pick.place).timeslice < QUANTUM
            }
        }),
    decreases left,
{
    if left > 0 {
        let looked = looked_at(table, place);
        looking_keeps(table, place);
        if looked.pick is None {
            let after = looked.table;
            assert(after.processes[place.process as int].threads.len()
                == table.processes[place.process as int].threads.len());
            assert(after.has(place));
            next_passes_all(after, place);
            picked_thread_runs(after, after.next(place), (left - 1) as nat);
        } else {
            assert(looked.table.processes[place.process as int].threads.len()
                == table.processes[place.process as int].threads.len());
        }
    }
}

/// The main thread of a process with a signal has not run longer than its slice.
pub open spec fn signals_fit(table: TableView) -> bool {
    forall|i: int|
        0 <= i < table.processes.len() && (#[trigger] table.processes[i]).signal_ready
            ==> table.processes[i].threads[0].timeslice <= QUANTUM
}

proof fn picked_thread_fits(table: TableView, place: Place, left: nat)
    requires
        table.sound(),
        table.has(place),
        signals_fit(table),
    ensures
        ({
            let end = walked(table, place, left);
            end.table.sound() && (end.pick matches Some(pick) ==> end.table.has(pick.place)
                && end.table.cell(pick.place).timeslice <= QUANTUM)
        }),
    decreases left,
{
    if left > 0 {
        let looked = looked_at(table, place);
        looking_keeps(table, place);
        let after = looked.table;
        assert(after.processes[place.process as int].threads.len()
            == table.processes[place.process as int].threads.len());
        assert(after.has(place));
        if looked.pick is None {
            assert forall|i: int|
                0 <= i < after.processes.len() && (
                #[trigger] after.processes[i]).signal_ready implies after.processes[i].threads[0].timeslice
                <= QUANTUM by {
                let first = Place { process: i as usize, thread: 0 };
                assert(table.processes[i].threads.len() > 0);
                assert(after.has(first));
                if first != place {
                    assert(after.cell(first) == table.cell(first));
                    assert(table.processes[i].signal_ready);
                }
            }
            next_passes_all(after, place);
            picked_thread_fits(after, after.next(place), (left - 1) as nat);
        } else if looked.pick->0.for_signal {
            let process = table.processes[place.process as int];
            assert(process.threads[0].id == 0);
            if place.thread > 0 {
                assert(process.threads[0].id < process.threads[place.thread as int].id);
            }
        }
    }
}

impl ProcessTable {
    /// Looks whether a thread can run, and if so gives it to this core.
    pub fn look_at(&mut self, place: Place) -> (r: Option<Pick>)
        requires
            old(self).wf(),
            old(self)@.has(place),
            old(self)@.cell(place).generation < usize::MAX,
        ensures
            final(self).wf(),
            (Looked { table: final(self)@, pick: r }) == looked_at(old(self)@, place),
    {
        let ghost before = self@;
        proof {
            looking_keeps(before, place);
        }
        assert(self.processes[place.process as int]@ == before.processes[place.process as int]);
        let healthy = match self.processes[place.process].health {
            ProcessHealth::Healthy => true,
            ProcessHealth::Dead => false,
        };
        let mut cell = self.cell(place);
        let ready = match cell.state {
            ExecutionState::Ready => true,
            _ => false,
        };
        if !healthy || !ready || cell.held {
            return None;
        }
        if cell.id == 0 && self.processes[place.process].signal_ready {
            cell.grow();
            cell.state = ExecutionState::Running;
            cell.held = true;
            self.set_cell(place, cell);
            self.set_signal_ready(place.process, false);
            return Some(Pick { place, for_signal: true });
        }
        let mut reached: usize = self.generation;
        let may_run = cell.check_grow(&mut reached);
        self.generation = reached;
        proof {
            assert(self@.processes =~= before.processes);
        }
        if may_run {
            cell.state = ExecutionState::Running;
            cell.held = true;
            self.set_cell(place, cell);
            return Some(Pick { place, for_signal: false });
        }
        self.set_cell(place, cell);
        None
    }

    /// Looks at all threads in turn, from this one on, until one can run.
    pub fn move_next_thread_until(&mut self, start: Place) -> (r: Option<Pick>)
        requires
            old(self).wf(),
            old(self)@.has(start),
            can_grow(old(self)@),
        ensures
            final(self).wf(),
            (Looked { table: final(self)@, pick: r }) == walked(
                old(self)@,
                start,
                old(self)@.thread_count(),
            ),
    {
        let ghost before = self@;
        let ghost count = self@.thread_count();
        let ghost mut done: nat = 0;
        let mut place = start;
        proof {
            ranks_differ(before, start, start);
        }
        loop
            invariant
                self.wf(),
                self@.has(place),
                self@.has(start),
                can_grow(self@),
                same_shape(before, self@),
                before.has(start),
                count == before.thread_count(),
                count == self@.thread_count(),
                before.rank(start) == self@.rank(start),
                done < count,
                self@.rank(place) == if before.rank(start) + done < count {
                    before.rank(start) + done
                } else {
                    (before.rank(start) + done - count) as nat
                },
                before == old(self)@,
                walked(before, start, count) == walked(self@, place, (count - done) as nat),
            decreases count - done,
        {
            let ghost table = self@;
            proof {
                looking_keeps(table, place);
                assert(table.has(place));
                ranks_differ(table, start, start);
            }
            let pick = self.look_at(place);
            if pick.is_some() {
                return pick;
            }
            proof {
                let after = self@;
                assert forall|i: int| 0 <= i < before.processes.len() implies (
                #[trigger] before.processes[i]).threads.len()
                    == after.processes[i].threads.len() by {
                    assert(table.processes[i].threads.len() == after.processes[i].threads.len());
                }
                shape_decides(before, after, before.processes.len() as int);
                shape_decides(before, after, start.process as int);
                shape_decides(table, after, place.process as int);
                assert(table.processes[place.process as int].threads.len()
                    == after.processes[place.process as int].threads.len());
                assert(table.processes[start.process as int].threads.len()
                    == after.processes[start.process as int].threads.len());
                assert(after.has(place));
                assert(after.has(start));
                next_passes_all(after, place);
                ranks_differ(after, after.next(place), start);
            }
            let next = self.move_next_thread(place);
            if next.process == start.process && next.thread == start.thread {
                proof {
                    assert(done + 1 == count);
                    assert(walked(self@, next, 0) == (Looked { table: self@, pick: None }));
                }
                return None;
            }
            proof {
                done = done + 1;
            }
            place = next;
        }
    }
}

/// The scheduler of one core.
pub struct UnfairScheduler {
    pub hartid: usize,
    /// The thread that the core runs.
    pub current: Option<Place>,
}

/// How long a thread may run yet.
pub open spec fn time_left(cell: ThreadCell) -> usize {
    (QUANTUM - cell.timeslice) as usize
}

/// A thread that leaves the core: what it has run is added to its slice, and unless it waits
/// for something it is ready.
pub open spec fn left_core(cell: ThreadCell, uptime: usize) -> ThreadCell {
    ThreadCell {
        timeslice: (cell.timeslice + if cell.last_tick_time == 0 {
            0
        } else {
            uptime - cell.last_tick_time
        }) as usize,
        state: if cell.state is Running {
            ExecutionState::Ready
        } else {
            cell.state
        },
        held: false,
        ..cell
    }
}

/// The table once the thread of this core has left it.
pub open spec fn settled(table: TableView, current: Option<Place>, uptime: usize) -> TableView {
    match current {
        Some(place) => table.with_cell(place, left_core(table.cell(place), uptime)),
        None => table,
    }
}

/// What a core picks next: it begins with the thread that it ran, or else with the first.
pub open spec fn picked_next(table: TableView, current: Option<Place>) -> Looked {
    if table.processes.len() == 0 {
        Looked { table, pick: None }
    } else {
        let start = match current {
            Some(place) => place,
            None => Place { process: 0, thread: 0 },
        };
        walked(table, start, table.thread_count())
    }
}

/// The time that has passed can be counted.
pub open spec fn time_counts(cell: ThreadCell, uptime: usize) -> bool {
    cell.last_tick_time <= uptime && cell.timeslice + uptime - cell.last_tick_time <= usize::MAX
}

impl UnfairScheduler {
    pub fn new(hartid: usize) -> (r: UnfairScheduler)
        ensures
            r == (UnfairScheduler { hartid, current: None }),
    {
        UnfairScheduler { hartid, current: None }
    }

    /// The current thread is one of the table.
    pub open spec fn fits(&self, table: TableView) -> bool {
        self.current matches Some(place) ==> table.has(place)
    }

    /// Picks a thread to run.
    pub fn find_next(&self, table: &mut ProcessTable) -> (r: Option<Pick>)
        requires
            old(table).wf(),
            self.fits(old(table)@),
            can_grow(old(table)@),
        ensures
            final(table).wf(),
            (Looked { table: final(table)@, pick: r }) == picked_next(
                old(table)@,
                self.current,
            ),
    {
        assert(table.processes.len() == table@.processes.len());
        if table.processes.len() == 0 {
            return None;
        }
        match self.current {
            Some(place) => table.move_next_thread_until(place),
            None => {
                assert(table@.processes[0].threads.len() > 0);
                table.move_next_thread_until(Place { process: 0, thread: 0 })
            },
        }
    }

    /// Takes the core from its thread and gives it to the next that can run; the pick, and
    /// how long it may run. Without one the core has none.
    pub fn schedule(&mut self, table: &mut ProcessTable, uptime: usize) -> (r: Option<
        (Pick, usize),
    >)
        requires
            old(table).wf(),
            old(self).fits(old(table)@),
            can_grow(old(table)@),
            old(self).current matches Some(place) ==> time_counts(
                old(table)@.cell(place),
                uptime,
            ),
            signals_fit(settled(old(table)@, old(self).current, uptime)),
        ensures
            final(table).wf(),
            final(self).fits(final(table)@),
            final(self).hartid == old(self).hartid,
            ({
                let end = picked_next(
                    settled(old(table)@, old(self).current, uptime),
                    old(self).current,
                );
                &&& final(table)@ == end.table
                &&& match end.pick {
                    Some(pick) => {
                        &&& final(self).current == Some(pick.place)
                        &&& r == Some(
                            (pick, time_left(end.table.cell(pick.place))),
                        )
                        &&& end.table.cell(pick.place).timeslice <= QUANTUM
                    },
                    None => final(self).current is None && r is None,
                }
            }),
    {
        let ghost before = table@;
        if let Some(place) = self.current {
            let mut cell = table.cell(place);
            let passed: usize = if cell.last_tick_time == 0 {
                0
            } else {
                uptime - cell.last_tick_time
            };
            cell.timeslice = cell.timeslice + passed;
            if let ExecutionState::Running = cell.state {
                cell.state = ExecutionState::Ready;
            }
            cell.held = false;
            table.set_cell(place, cell);
            proof {
                assert(cell == left_core(before.cell(place), uptime));
                settling_keeps(before, place, uptime);
            }
        }
        let ghost from = table@;
        proof {
            if from.processes.len() > 0 {
                let start = match self.current {
                    Some(place) => place,
                    None => Place { process: 0, thread: 0 },
                };
                assert(from.processes[0].threads.len() > 0);
                picked_thread_fits(from, start, from.thread_count());
            }
        }
        let next = self.find_next(table);
        match next {
            Some(pick) => {
                let remaining: usize = QUANTUM - table.cell(pick.place).timeslice;
                self.current = Some(pick.place);
                Some((pick, remaining))
            },
            None => {
                self.current = None;
                None
            },
        }
    }

    /// What an address of the current process belongs to.
    pub fn is_address_in(&self, table: &ProcessTable, addr: u64, space: AddressSpace) -> (r:
        Option<ProcessAddressRegion>)
        requires
            self.fits(table@),
            self.current matches Some(place) ==> within(
                table@.processes[place.process as int].layout,
                addr,
                space,
            ),
        ensures
            r == match self.current {
                Some(place) => Some(
                    region_of(table@.processes[place.process as int].layout, addr, space),
                ),
                None => None,
            },
    {
        match self.current {
            Some(place) => {
                assert(table.processes[place.process as int]@
                    == table@.processes[place.process as int]);
                Some(table.processes[place.process].layout.is_address_in(addr, space))
            },
            None => None,
        }
    }

    /// The current process, its trampoline, and the place of the current thread's registers.
    pub fn context(&self, table: &ProcessTable) -> (r: Option<(Pid, u64, u64)>)
        requires
            self.fits(table@),
        ensures
            r == match self.current {
                Some(place) => Some(
                    (
                        table@.processes[place.process as int].id,
                        table@.processes[place.process as int].layout.trampoline,
                        table@.cell(place).trapframe,
                    ),
                ),
                None => None,
            },
    {
        match self.current {
            Some(place) => {
                assert(table.processes[place.process as int]@
                    == table@.processes[place.process as int]);
                let process = &table.processes[place.process];
                Some((process.id, process.layout.trampoline, table.cell(place).trapframe))
            },
            None => None,
        }
    }

    /// Ends a system call of the current thread, which may have asked for another to run.
    pub fn finish_call(
        &mut self,
        table: &mut ProcessTable,
        requested: bool,
        uptime: usize,
    ) -> (r: Option<(Pick, usize)>)
        requires
            old(table).wf(),
            old(self).current is Some,
            old(self).fits(old(table)@),
            requested ==> can_grow(old(table)@) && time_counts(
                old(table)@.cell(old(self).current->0),
                uptime,
            ) && signals_fit(settled(old(table)@, old(self).current, uptime)),
        ensures
            final(table).wf(),
            final(self).fits(final(table)@),
            !requested ==> r is None && *final(self) == *old(self) && final(table)@
                == old(table)@,
            requested ==> {
                let end = picked_next(
                    settled(old(table)@, old(self).current, uptime),
                    old(self).current,
                );
                &&& final(table)@ == end.table
                &&& final(self).hartid == old(self).hartid
                &&& match end.pick {
                    Some(pick) => final(self).current == Some(pick.place) && r == Some(
                        (pick, time_left(end.table.cell(pick.place))),
                    ),
                    None => final(self).current is None && r is None,
                }
            },
    {
        if requested {
            self.schedule(table, uptime)
        } else {
            None
        }
    }
}

proof fn settling_keeps(table: TableView, place: Place, uptime: usize)
    requires
        table.sound(),
        table.has(place),
        can_grow(table),
    ensures
        can_grow(settled(table, Some(place), uptime)),
        settled(table, Some(place), uptime).has(place),
{
    let after = settled(table, Some(place), uptime);
    assert forall|other: Place| #[trigger] after.has(other) implies after.cell(other).generation
        < usize::MAX by {
        assert(table.has(other));
        if other.process != place.process {
            assert(after.processes[other.process as int] == table.processes[other.process as int]);
        }
    }
}

/// What a system call of the current thread can do with processes and threads.
pub struct UnfairContext {
    pub place: Place,
    /// Another thread is to run after the call.
    pub scheduled: bool,
}

impl UnfairContext {
    pub fn pid(&self, table: &ProcessTable) -> (r: Pid)
        requires
            table@.has(self.place),
        ensures
            r == table@.processes[self.place.process as int].id,
    {
        assert(table.processes[self.place.process as int]@
            == table@.processes[self.place.process as int]);
        table.processes[self.place.process].id
    }

    pub fn tid(&self, table: &ProcessTable) -> (r: Tid)
        requires
            table@.has(self.place),
        ensures
            r == table@.cell(self.place).id,
    {
        table.cell(self.place).id
    }

    /// Adds a process whose parent is the current one.
    pub fn add_proc(&self, table: &mut ProcessTable, top: u64, stack: u64, heap: u64) -> (r: Pid)
        requires
            old(table).wf(),
            old(table)@.has(self.place),
            old(table)@.next_pid < u64::MAX,
            old(table)@.processes.len() < usize::MAX,
            top >= 2 * PAGE_SIZE,
            stack > 0,
        ensures
            final(table).wf(),
            r == old(table)@.next_pid,
            final(table)@ == old(table)@.with_process(
                old(table)@.processes[self.place.process as int].id,
                top,
                stack,
                heap,
            ),
    {
        let parent: Pid = self.pid(table);
        let start = table.add(Some(parent), top, stack, heap);
        start.pid
    }

    /// Adds a thread to the current process.
    pub fn add_thread(&self, table: &mut ProcessTable) -> (r: ThreadStart)
        requires
            old(table).wf(),
            old(table)@.has(self.place),
            old(table)@.processes[self.place.process as int].threads.len() < usize::MAX,
            has_place(
                old(table)@.processes[self.place.process as int].layout,
                next_tid(old(table)@.processes[self.place.process as int].threads) as u64,
            ),
        ensures
            final(table).wf(),
            r == next_start(old(table)@.processes[self.place.process as int]),
            final(table)@ == old(table)@.with_thread(self.place.process as int),
    {
        proof {
            run_facts(table@.processes[self.place.process as int].threads, 0);
        }
        table.add_thread(self.place.process)
    }

    /// Asks for another thread to run after the call.
    pub fn schedule(&mut self)
        ensures
            *final(self) == (UnfairContext { scheduled: true, ..*old(self) }),
    {
        self.scheduled = true;
    }

    /// Whether there is a process with this identity; the current one is found at once.
    pub fn find(&self, table: &ProcessTable, pid: Pid) -> (r: Option<usize>)
        requires
            table.wf(),
            table@.has(self.place),
        ensures
            match r {
                Some(i) => position(table@.processes, pid, 0) == Some(i as int),
                None => position(table@.processes, pid, 0) is None,
            },
    {
        let own: Pid = self.pid(table);
        if own == pid {
            proof {
                processes_are_found(table@, self.place.process as int);
            }
            return Some(self.place.process);
        }
        table.find_process(pid)
    }
}

/// Leaving the core adds the time that the thread had it to what it has run of its slice, and
/// nothing else: no time is lost and none counted twice. A thread that was never ticked has
/// had no time. The thread keeps its number, generation and registers, can be picked again
/// unless it waits for something, and no other thread is touched.
pub proof fn leaving_adds_the_stay(table: TableView, place: Place, uptime: usize)
    requires
        table.sound(),
        table.has(place),
        time_counts(table.cell(place), uptime),
    ensures
        ({
            let before = table.cell(place);
            let left = settled(table, Some(place), uptime);
            let after = left.cell(place);
            &&& before.last_tick_time != 0 ==> after.timeslice - before.timeslice == uptime
                - before.last_tick_time
            &&& before.last_tick_time == 0 ==> after.timeslice == before.timeslice
            &&& after.timeslice >= before.timeslice
            &&& !after.held
            &&& !(after.state is Running)
            &&& after.state is Ready <==> !(before.state is Waiting)
            &&& after.state is Waiting <==> before.state is Waiting
            &&& (after.id, after.generation, after.trapframe, after.last_tick_time) == (
                before.id,
                before.generation,
                before.trapframe,
                before.last_tick_time,
            )
            &&& left.generation == table.generation
            &&& left.next_pid == table.next_pid
            &&& left.processes.len() == table.processes.len()
            &&& forall|other: Place| #[trigger]
                left.has(other) <==> table.has(other)
            &&& forall|other: Place|
                table.has(other) && other != place ==> #[trigger] left.cell(other) == table.cell(
                    other,
                )
            &&& forall|i: int|
                0 <= i < table.processes.len() ==> (#[trigger] left.processes[i]).signal_ready
                    == table.processes[i].signal_ready && left.processes[i].health
                    == table.processes[i].health && left.processes[i].id
                    == table.processes[i].id && left.processes[i].layout
                    == table.processes[i].layout && left.processes[i].parent
                    == table.processes[i].parent
            &&& settled(table, None, uptime) == table
        }),
{
    let left = settled(table, Some(place), uptime);
    assert forall|other: Place| #[trigger] left.has(other) <==> table.has(other) by {
    }
    assert forall|other: Place| table.has(other) && other != place implies #[trigger] left.cell(
        other,
    ) == table.cell(other) by {
    }
}

/// A thread after it had a core several times, each stay given by when its tick was recorded
/// and when it left.
pub open spec fn after_stays(cell: ThreadCell, stays: Seq<(usize, usize)>) -> ThreadCell
    decreases stays.len(),
{
    if stays.len() == 0 {
        cell
    } else {
        let before = after_stays(cell, stays.drop_last());
        left_core(
            ThreadCell {
                last_tick_time: stays.last().0,
                state: ExecutionState::Running,
                held: true,
                ..before
            },
            stays.last().1,
        )
    }
}

/// How long the stays are together.
pub open spec fn time_of(stays: Seq<(usize, usize)>) -> int
    decreases stays.len(),
{
    if stays.len() == 0 {
        0
    } else {
        time_of(stays.drop_last()) + (stays.last().1 - stays.last().0)
    }
}

/// Over any number of stays within one slice, what the thread has run of the slice is the sum
/// of all of them, so what remains is the slice less that sum: being interrupted often gains a
/// thread nothing.
pub proof fn stays_add_up(cell: ThreadCell, stays: Seq<(usize, usize)>)
    requires
        forall|i: int| 0 <= i < stays.len() ==> 0 < (#[trigger] stays[i]).0 <= stays[i].1,
        cell.timeslice + time_of(stays) <= QUANTUM,
    ensures
        time_of(stays) >= 0,
        after_stays(cell, stays).timeslice == cell.timeslice + time_of(stays),
        QUANTUM - after_stays(cell, stays).timeslice == QUANTUM - cell.timeslice - time_of(stays),
        after_stays(cell, stays).generation == cell.generation,
    decreases stays.len(),
{
    if stays.len() > 0 {
        let fewer = stays.drop_last();
        assert forall|i: int| 0 <= i < fewer.len() implies 0 < (#[trigger] fewer[i]).0
            <= fewer[i].1 by {
            assert(stays[i] == fewer[i]);
        }
        assert(0 < stays[stays.len() - 1].0 <= stays[stays.len() - 1].1);
        stays_add_up(cell, fewer);
    }
}

/// What looking at a slice does. A thread with time left is not touched. One that has used
/// its slice up gets a whole new one, at the cost of one generation if it may run at once;
/// if not, its generation stays. The generation of all never falls, rises only to the
/// thread's, and does not rise when the thread may run. So a thread that has spent its slice
/// runs exactly if no more than its own generation was reached, and no less.
pub proof fn slices_and_generations(cell: ThreadCell, generation: usize)
    requires
        cell.generation < usize::MAX,
    ensures
        ({
            let growth = grown(cell, generation);
            let spent = cell.timeslice >= QUANTUM;
            &&& !spent ==> growth.cell == cell && growth.generation == generation
                && growth.may_run
            &&& spent ==> growth.cell.timeslice == 0
            &&& spent ==> (growth.may_run <==> cell.generation == generation)
            &&& growth.cell.generation - cell.generation == if spent && growth.may_run {
                1int
            } else {
                0
            }
            &&& growth.may_run ==> growth.generation == generation
            &&& generation <= growth.generation
            &&& !growth.may_run ==> growth.generation >= cell.generation && (growth.generation
                == generation || growth.generation == cell.generation)
            &&& (growth.cell.id, growth.cell.state, growth.cell.last_tick_time, growth.cell.trapframe,
                growth.cell.held) == (cell.id, cell.state, cell.last_tick_time, cell.trapframe, cell.held)
        }),
{
}

/// What looking at a thread can do. Only a ready thread of a healthy process that no core has
/// is picked, and only the one looked at; otherwise nothing at all changes for it but its
/// slice. A pick handles a signal exactly if the thread is the main one and a signal waits,
/// which it takes; it may then run whatever its slice. Any other pick is owed to the slice.
/// The thread that was picked is this core's and runs, and no other thread is touched.
pub proof fn looking_picks_who_may_run(table: TableView, place: Place)
    requires
        table.sound(),
        table.has(place),
        can_grow(table),
    ensures
        ({
            let looked = looked_at(table, place);
            let process = table.processes[place.process as int];
            let before = table.cell(place);
            let after = looked.table.cell(place);
            let free = process.health is Healthy && before.state is Ready && !before.held;
            let signal = before.id == 0 && process.signal_ready;
            &&& !free ==> looked.pick is None && looked.table == table
            &&& looked.pick matches Some(pick) ==> free && pick.place == place && pick.for_signal
                == signal && after.held && after.state is Running
            &&& free && signal ==> looked.pick is Some && after.timeslice == before.timeslice
                && after.generation == before.generation + 1 && looked.table.generation
                == table.generation && !looked.table.processes[place.process as int].signal_ready
            &&& free && !signal ==> (looked.pick is Some <==> before.timeslice < QUANTUM
                || before.generation == table.generation)
            &&& free && !signal ==> looked.table.processes[place.process as int].signal_ready
                == process.signal_ready
            &&& looked.pick is None ==> after.state == before.state && after.held == before.held
                && after.generation == before.generation
            &&& after.id == before.id && after.trapframe == before.trapframe
                && after.last_tick_time == before.last_tick_time
            &&& table.generation <= looked.table.generation
            &&& forall|other: Place|
                table.has(other) && other != place ==> looked.table.has(other)
                    && #[trigger] looked.table.cell(other) == table.cell(other)
            &&& forall|i: int|
                0 <= i < table.processes.len() && i != place.process ==> #[trigger] looked.table.processes[i]
                    == table.processes[i]
        }),
{
    let looked = looked_at(table, place);
    assert forall|other: Place| table.has(other) && other != place implies looked.table.has(other)
        && #[trigger] looked.table.cell(other) == table.cell(other) by {
    }
    assert(table.has(place));
    let process = table.processes[place.process as int];
    assert(process.threads.update(place.thread as int, table.cell(place)) =~= process.threads);
}

/// A walk takes the first thread in turn that can run: if the one it begins with can, that is
/// picked, and if it cannot, the walk goes on behind it. A walk over no thread picks none.
pub proof fn walk_takes_the_first(table: TableView, place: Place, left: nat)
    requires
        table.sound(),
        table.has(place),
        left > 0,
    ensures
        eligible(table, place) && table.cell(place).timeslice < QUANTUM ==> (walked(
            table,
            place,
            left,
        ).pick matches Some(pick) && pick.place == place),
        !eligible(table, place) ==> walked(table, place, left) == walked(
            table,
            table.next(place),
            (left - 1) as nat,
        ),
        walked(table, place, 0).pick is None,
        walked(table, place, 0).table == table,
{
}

/// A core that ran a thread looks at that thread first, and one that ran none at the first
/// thread of all: a thread with time left keeps the core as long as it can run.
pub proof fn core_stays_with_its_thread(table: TableView, place: Place)
    requires
        table.sound(),
        table.has(place),
        eligible(table, place),
        table.cell(place).timeslice < QUANTUM,
    ensures
        picked_next(table, Some(place)).pick matches Some(pick) && pick.place == place,
        place.process == 0 && place.thread == 0 ==> (picked_next(table, None).pick matches Some(
            pick,
        ) && pick.place == place),
{
    ranks_differ(table, place, place);
    walk_takes_the_first(table, place, table.thread_count());
}

/// What an address belongs to, by where it lies: below the heap's start it is the program's;
/// above it, a stack's if it lies less than the stacks of all threads below their start, and
/// the heap's else. A place for registers is counted in steps of their size downwards.
pub proof fn regions_by_position(layout: ProcessLayout, addr: u64)
    ensures
        region_of(layout, addr, AddressSpace::Invalid) is Invalid,
        region_of(layout, addr, AddressSpace::User) is Program <==> addr < layout.break_point,
        layout.break_point <= addr < layout.stack_point ==> (region_of(
            layout,
            addr,
            AddressSpace::User,
        ) is Stack <==> layout.stack_point - addr <= layout.thread_count * THREAD_STACK_SIZE),
        layout.break_point <= addr < layout.stack_point ==> (region_of(
            layout,
            addr,
            AddressSpace::User,
        ) is Heap <==> layout.stack_point - addr > layout.thread_count * THREAD_STACK_SIZE),
        addr <= layout.trampoline ==> (region_of(
            layout,
            addr,
            AddressSpace::Kernel,
        ) matches ProcessAddressRegion::TrapFrame(n) && n * TRAPFRAME_SIZE <= layout.trampoline
            - addr < (n + 1) * TRAPFRAME_SIZE),
{
    let down = layout.stack_point - addr - 1;
    let count = layout.thread_count as int;
    assert(0 <= down ==> (down / 0x80_0000 < count <==> down < count * 0x80_0000))
        by (nonlinear_arith);
    let below = layout.trampoline - addr;
    assert(below / 1024 * 1024 <= below < (below / 1024 + 1) * 1024);
}

/// Where registers and stacks are: the first registers at the start of the page below the
/// trampoline's, the next behind them, and behind the last of a page the first of the page
/// below; the first stack ends right below the stacks' start, and each other right below the
/// one before it.
pub proof fn places_follow_each_other(trampoline: u64, stack: u64, id: Tid)
    requires
        id < u64::MAX,
    ensures
        trapframe_address(trampoline, 0) == trampoline - trampoline % PAGE_SIZE - PAGE_SIZE,
        trapframe_address(trampoline, (id + 1) as u64) - trapframe_address(trampoline, id) == if (id
            + 1) % TRAPFRAME_HOLD as int == 0 {
            -(PAGE_SIZE + (TRAPFRAME_HOLD - 1) * TRAPFRAME_SIZE)
        } else {
            TRAPFRAME_SIZE as int
        },
        stack_address(stack, 0) == stack - 1,
        stack_address(stack, id) - stack_address(stack, (id + 1) as u64) == THREAD_STACK_SIZE,
{
    assert((trampoline / 4096) * 4096 == trampoline - trampoline % 4096);
    assert((id + 1) * 0x80_0000 == id * 0x80_0000 + 0x80_0000) by (nonlinear_arith);
}

/// A new process comes behind all others and leaves them as they are. Its number is larger
/// than theirs, and it has one thread: number zero, ready, with no core, with its whole slice,
/// and in the generation that all have reached. Its trampoline is the page that holds the
/// highest address.
pub proof fn new_process_comes_last(
    table: TableView,
    parent: Pid,
    top: u64,
    stack: u64,
    heap: u64,
)
    requires
        table.sound(),
        table.next_pid < u64::MAX,
        top >= 2 * PAGE_SIZE,
        stack > 0,
    ensures
        ({
            let after = table.with_process(parent, top, stack, heap);
            let n = table.processes.len() as int;
            let new = after.processes[n];
            let main = new.threads[0];
            let start = main_start(table.next_pid, parent, top, stack);
            &&& after.processes.len() == n + 1
            &&& after.generation == table.generation
            &&& after.next_pid > new.id
            &&& forall|i: int| 0 <= i < n ==> #[trigger] after.processes[i] == table.processes[i]
            &&& forall|i: int| 0 <= i < n ==> (#[trigger] table.processes[i]).id < new.id
            &&& new.id == table.next_pid && new.parent == parent && new.health is Healthy
                && !new.signal_ready
            &&& new.threads.len() == 1
            &&& main.id == 0 && main.state is Ready && !main.held && main.timeslice == 0
                && main.last_tick_time == 0 && main.generation == table.generation
            &&& new.layout.trampoline % PAGE_SIZE == 0
            &&& new.layout.trampoline <= top < new.layout.trampoline + PAGE_SIZE
            &&& new.layout.stack_point == stack && new.layout.break_point == heap
                && new.layout.thread_count == 1
            &&& main.trapframe == new.layout.trampoline - PAGE_SIZE
            &&& start.tid == main.id && start.trapframe == main.trapframe && start.stack == stack
                - 1 && start.trampoline == new.layout.trampoline && start.pid == new.id
                && start.parent == parent
        }),
{
}

/// A new thread goes to its process alone. It takes the smallest number that is free there,
/// begins ready, with no core, with a whole slice and in the generation that all have reached,
/// and the threads before it and behind it stay as they are.
pub proof fn new_thread_joins_its_process(table: TableView, i: int)
    requires
        table.sound(),
        0 <= i < table.processes.len(),
        has_place(table.processes[i].layout, next_tid(table.processes[i].threads) as u64),
    ensures
        ({
            let after = table.with_thread(i);
            let old_threads = table.processes[i].threads;
            let threads = after.processes[i].threads;
            let start = next_start(table.processes[i]);
            let at = start.tid as int;
            let new = threads[at];
            &&& after.generation == table.generation && after.next_pid == table.next_pid
            &&& after.processes.len() == table.processes.len()
            &&& forall|k: int|
                0 <= k < table.processes.len() && k != i ==> #[trigger] after.processes[k]
                    == table.processes[k]
            &&& after.processes[i] == (ProcessCellView { threads, ..table.processes[i] })
            &&& threads.len() == old_threads.len() + 1
            &&& 0 <= at < threads.len()
            &&& forall|k: int| 0 <= k < at ==> #[trigger] threads[k] == old_threads[k]
            &&& forall|k: int| at < k < threads.len() ==> #[trigger] threads[k] == old_threads[k - 1]
            &&& !has_number(old_threads, start.tid)
            &&& forall|n: Tid| n < start.tid ==> #[trigger] has_number(old_threads, n)
            &&& new.id == start.tid && new.state is Ready && !new.held && new.timeslice == 0
                && new.last_tick_time == 0 && new.generation == table.generation
                && new.trapframe == start.trapframe
            &&& start.trapframe == trapframe_address(table.processes[i].layout.trampoline, start.tid)
            &&& start.stack == stack_address(table.processes[i].layout.stack_point, start.tid)
            &&& start.pid == table.processes[i].id && start.parent == table.processes[i].parent
                && start.trampoline == table.processes[i].layout.trampoline
        }),
{
    let threads = table.processes[i].threads;
    assert(numbered(threads));
    let start = next_start(table.processes[i]);
    run_facts(threads, 0);
    let cell = new_cell(start, table.generation);
    next_tid_is_the_smallest_free(threads, cell);
}

/// A process is not found exactly if none has the identity, and what is found has it.
pub proof fn only_its_own_identity_finds_a_process(
    processes: Seq<ProcessCellView>,
    pid: Pid,
    from: int,
)
    requires
        0 <= from <= processes.len(),
    ensures
        match position(processes, pid, from) {
            Some(i) => from <= i < processes.len() && processes[i].id == pid,
            None => forall|i: int|
                from <= i < processes.len() ==> (#[trigger] processes[i]).id != pid,
        },
    decreases processes.len() - from,
{
    if from < processes.len() && processes[from].id != pid {
        only_its_own_identity_finds_a_process(processes, pid, from + 1);
    }
}

/// What a thread may run yet and what it has run make a whole slice: a new thread has all of it, and
/// every stay on a core takes from it what the stay lasts.
pub proof fn slices_are_used_up(cell: ThreadCell, uptime: usize)
    requires
        cell.timeslice <= QUANTUM,
        0 < cell.last_tick_time <= uptime,
        uptime - cell.last_tick_time <= time_left(cell),
    ensures
        time_left(cell) + cell.timeslice == 20,
        time_left(left_core(cell, uptime)) == time_left(cell) - (uptime - cell.last_tick_time),
        cell.timeslice == 0 ==> time_left(cell) == 20,
{
}

} // verus!
