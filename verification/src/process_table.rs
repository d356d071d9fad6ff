//! The table of all processes. Process identities are never reused. A process that is
//! about to start holds a reservation, which no lookup sees; putting the process in its
//! place needs no memory.
use vstd::prelude::*;

use crate::job::Pid;

verus! {

/// A process in the table.
#[derive(Clone, Copy, Debug, PartialEq, Eq, Structural)]
pub struct ProcessRef {
    pub pid: Pid,
    /// Which process it is.
    pub process: u64,
}

/// An entry of the table.
#[derive(Clone, Copy, Debug, PartialEq, Eq, Structural)]
pub enum Entry {
    Reserved { pid: Pid, token: u64 },
    Process(ProcessRef),
}

/// A place in the table that is kept for a process.
#[derive(Debug)]
pub struct InsertReservation {
    pid: Pid,
    token: u64,
}

impl View for InsertReservation {
    type V = Entry;

    /// The entry that keeps the place.
    closed spec fn view(&self) -> Entry {
        Entry::Reserved { pid: self.pid, token: self.token }
    }
}

impl InsertReservation {
    /// The process that the place is kept for.
    pub fn pid(&self) -> (r: Pid)
        ensures
            r == self@->pid,
    {
        self.pid
    }
}

/// The table of all processes.
pub struct ProcessTable {
    entries: Vec<Entry>,
    next_pid: u64,
    next_token: u64,
}

/// The same as a value.
#[verifier::ext_equal]
pub struct ProcessTableView {
    pub entries: Seq<Entry>,
    pub next_pid: u64,
    pub next_token: u64,
}

/// The number after `number`; the last is followed by zero.
pub open spec fn next_number(number: u64) -> u64 {
    if number < u64::MAX {
        (number + 1) as u64
    } else {
        0
    }
}

fn counted(number: u64) -> (r: u64)
    ensures
        r == next_number(number),
{
    if number < u64::MAX {
        number + 1
    } else {
        0
    }
}

/// The first entry equal to `wanted`, from `from` on.
pub open spec fn first_equal(entries: Seq<Entry>, wanted: Entry, from: int) -> Option<int>
    decreases entries.len() - from,
{
    if from >= entries.len() {
        None
    } else if entries[from] == wanted {
        Some(from)
    } else {
        first_equal(entries, wanted, from + 1)
    }
}

/// An entry is the process `pid`.
pub open spec fn is_process(entry: Entry, pid: Pid) -> bool {
    entry matches Entry::Process(process) && process.pid == pid
}

/// The first entry that is process `pid`, from `from` on.
pub open spec fn first_process(entries: Seq<Entry>, pid: Pid, from: int) -> Option<int>
    decreases entries.len() - from,
{
    if from >= entries.len() {
        None
    } else if is_process(entries[from], pid) {
        Some(from)
    } else {
        first_process(entries, pid, from + 1)
    }
}

/// The entries without the one at `i`, whose place the last one takes.
pub open spec fn without(entries: Seq<Entry>, i: int) -> Seq<Entry> {
    entries.update(i, entries.last()).drop_last()
}

proof fn first_equal_is_found(entries: Seq<Entry>, wanted: Entry, from: int)
    requires
        0 <= from,
    ensures
        match first_equal(entries, wanted, from) {
            Some(i) => from <= i < entries.len() && entries[i] == wanted && forall|j: int|
                from <= j < i ==> #[trigger] entries[j] != wanted,
            None => forall|j: int| from <= j < entries.len() ==> #[trigger] entries[j] != wanted,
        },
    decreases entries.len() - from,
{
    if from < entries.len() && entries[from] != wanted {
        first_equal_is_found(entries, wanted, from + 1);
    }
}

proof fn first_process_is_found(entries: Seq<Entry>, pid: Pid, from: int)
    requires
        0 <= from,
    ensures
        match first_process(entries, pid, from) {
            Some(i) => from <= i < entries.len() && is_process(entries[i], pid) && forall|j: int|
                from <= j < i ==> !is_process(#[trigger] entries[j], pid),
            None => forall|j: int|
                from <= j < entries.len() ==> !is_process(#[trigger] entries[j], pid),
        },
    decreases entries.len() - from,
{
    if from < entries.len() && !is_process(entries[from], pid) {
        first_process_is_found(entries, pid, from + 1);
    }
}

/// A reservation that is given up leaves the table as it was.
pub proof fn rollback_undoes_reserve(entries: Seq<Entry>, reserved: Entry)
    requires
        first_equal(entries, reserved, 0) is None,
    ensures
        first_equal(entries.push(reserved), reserved, 0) == Some(entries.len() as int),
        without(entries.push(reserved), entries.len() as int) == entries,
{
    let after = entries.push(reserved);
    first_equal_is_found(entries, reserved, 0);
    first_equal_is_found(after, reserved, 0);
    assert(after[entries.len() as int] == reserved);
    let found = first_equal(after, reserved, 0);
    assert(found is Some);
    if found->0 < entries.len() {
        assert(entries[found->0] == after[found->0]);
    }
    assert(without(after, entries.len() as int) =~= entries);
}

/// No lookup sees a reservation: while it is held, every process is found where it was.
pub proof fn reservations_are_not_seen(entries: Seq<Entry>, reserved: Entry, pid: Pid)
    requires
        reserved is Reserved,
    ensures
        first_process(entries.push(reserved), pid, 0) == first_process(entries, pid, 0),
{
    let after = entries.push(reserved);
    first_process_is_found(entries, pid, 0);
    first_process_is_found(after, pid, 0);
    let had = first_process(entries, pid, 0);
    let has = first_process(after, pid, 0);
    if had is Some {
        assert(after[had->0] == entries[had->0]);
        assert(has is Some);
        if has->0 < entries.len() {
            assert(after[has->0] == entries[has->0]);
        }
        assert(has->0 == had->0);
    } else if has is Some {
        assert(after[has->0] == entries[has->0]);
    }
}

/// A process that is put in its place is found there, if no other has its identity.
pub proof fn committed_process_is_found(entries: Seq<Entry>, i: int, process: ProcessRef)
    requires
        0 <= i < entries.len(),
        first_process(entries, process.pid, 0) is None,
    ensures
        first_process(entries.update(i, Entry::Process(process)), process.pid, 0) == Some(i),
{
    let after = entries.update(i, Entry::Process(process));
    first_process_is_found(entries, process.pid, 0);
    first_process_is_found(after, process.pid, 0);
    assert(is_process(after[i], process.pid));
    let has = first_process(after, process.pid, 0);
    assert(has is Some);
    if has->0 != i {
        assert(after[has->0] == entries[has->0]);
    }
}

impl View for ProcessTable {
    type V = ProcessTableView;

    closed spec fn view(&self) -> ProcessTableView {
        ProcessTableView {
            entries: self.entries@,
            next_pid: self.next_pid,
            next_token: self.next_token,
        }
    }
}

impl ProcessTable {
    pub fn new() -> (r: ProcessTable)
        ensures
            r@ == (ProcessTableView { entries: Seq::empty(), next_pid: 1, next_token: 1 }),
    {
        ProcessTable { entries: Vec::new(), next_pid: 1, next_token: 1 }
    }

    /// A new process identity. They count up from one.
    pub fn alloc_pid(&mut self) -> (r: Pid)
        ensures
            r == old(self)@.next_pid,
            final(self)@ == (ProcessTableView {
                next_pid: next_number(old(self)@.next_pid),
                ..old(self)@
            }),
    {
        let pid: Pid = self.next_pid;
        self.next_pid = counted(pid);
        pid
    }

    /// Keeps a place for a process; `room` says whether there is memory for it. Fails
    /// without memory, and once all tokens are spent.
    pub fn reserve_insert(&mut self, pid: Pid, room: bool) -> (r: Result<InsertReservation, ()>)
        ensures
            r is Ok <==> old(self)@.next_token != 0 && room,
            final(self)@.next_token == next_number(old(self)@.next_token),
            final(self)@.next_pid == old(self)@.next_pid,
            match r {
                Ok(reservation) => reservation@ == (Entry::Reserved {
                    pid,
                    token: old(self)@.next_token,
                }) && final(self)@.entries == old(self)@.entries.push(reservation@),
                Err(_) => final(self)@.entries == old(self)@.entries,
            },
    {
        let token: u64 = self.next_token;
        self.next_token = counted(token);
        if token == 0 || !room {
            return Err(());
        }
        self.entries.push(Entry::Reserved { pid, token });
        Ok(InsertReservation { pid, token })
    }

    /// Whether the place of a reservation is still kept.
    pub fn holds(&self, reservation: &InsertReservation) -> (r: bool)
        ensures
            r == (first_equal(self@.entries, reservation@, 0) is Some),
    {
        let mut i: usize = 0;
        while i < self.entries.len()
            invariant
                i <= self.entries.len(),
                first_equal(self@.entries, reservation@, 0) == first_equal(
                    self@.entries,
                    reservation@,
                    i as int,
                ),
            decreases self.entries.len() - i,
        {
            if let Entry::Reserved { pid, token } = self.entries[i] {
                if pid == reservation.pid && token == reservation.token {
                    return true;
                }
            }
            i = i + 1;
        }
        false
    }

    /// Where the place of a reservation is.
    fn position(&self, reservation: &InsertReservation) -> (r: usize)
        requires
            first_equal(self@.entries, reservation@, 0) is Some,
        ensures
            first_equal(self@.entries, reservation@, 0) == Some(r as int),
            r < self.entries.len(),
    {
        let mut i: usize = 0;
        while i < self.entries.len()
            invariant
                i <= self.entries.len(),
                first_equal(self@.entries, reservation@, 0) is Some,
                first_equal(self@.entries, reservation@, 0) == first_equal(
                    self@.entries,
                    reservation@,
                    i as int,
                ),
            decreases self.entries.len() - i,
        {
            if let Entry::Reserved { pid, token } = self.entries[i] {
                if pid == reservation.pid && token == reservation.token {
                    return i;
                }
            }
            i = i + 1;
        }
        i
    }

    /// Puts a process in the place that was kept for it.
    pub fn commit_insert(&mut self, reservation: InsertReservation, process: ProcessRef)
        requires
            reservation@->pid == process.pid,
            first_equal(old(self)@.entries, reservation@, 0) is Some,
        ensures
            final(self)@ == (ProcessTableView {
                entries: old(self)@.entries.update(
                    first_equal(old(self)@.entries, reservation@, 0)->0,
                    Entry::Process(process),
                ),
                ..old(self)@
            }),
    {
        let i: usize = self.position(&reservation);
        self.entries.set(i, Entry::Process(process));
    }

    /// Gives up the place that was kept.
    pub fn rollback_insert(&mut self, reservation: InsertReservation)
        requires
            first_equal(old(self)@.entries, reservation@, 0) is Some,
        ensures
            final(self)@ == (ProcessTableView {
                entries: without(
                    old(self)@.entries,
                    first_equal(old(self)@.entries, reservation@, 0)->0,
                ),
                ..old(self)@
            }),
    {
        let i: usize = self.position(&reservation);
        let _ = self.entries.swap_remove(i);
        assert(self@.entries =~= without(old(self)@.entries, i as int));
    }

    /// Adds a process of the boot; there is memory for it, and tokens are left.
    pub fn insert_boot(&mut self, process: ProcessRef)
        requires
            old(self)@.next_token != 0,
            first_equal(
                old(self)@.entries,
                Entry::Reserved { pid: process.pid, token: old(self)@.next_token },
                0,
            ) is None,
        ensures
            final(self)@ == (ProcessTableView {
                entries: old(self)@.entries.push(Entry::Process(process)),
                next_token: next_number(old(self)@.next_token),
                ..old(self)@
            }),
    {
        let ghost before = self@;
        if let Ok(reservation) = self.reserve_insert(process.pid, true) {
            proof {
                rollback_undoes_reserve(before.entries, reservation@);
            }
            self.commit_insert(reservation, process);
            assert(self@.entries =~= before.entries.push(Entry::Process(process)));
        }
    }

    /// The process with this identity.
    pub fn get(&self, pid: Pid) -> (r: Option<ProcessRef>)
        ensures
            match first_process(self@.entries, pid, 0) {
                Some(i) => r matches Some(process) && self@.entries[i] == Entry::Process(process),
                None => r is None,
            },
    {
        match self.process_position(pid) {
            None => None,
            Some(i) => match self.entries[i] {
                Entry::Process(process) => Some(process),
                Entry::Reserved { .. } => None,
            },
        }
    }

    fn process_position(&self, pid: Pid) -> (r: Option<usize>)
        ensures
            match r {
                Some(i) => first_process(self@.entries, pid, 0) == Some(i as int) && i
                    < self.entries.len() && is_process(self.entries[i as int], pid),
                None => first_process(self@.entries, pid, 0) is None,
            },
    {
        let mut i: usize = 0;
        while i < self.entries.len()
            invariant
                i <= self.entries.len(),
                first_process(self@.entries, pid, 0) == first_process(
                    self@.entries,
                    pid,
                    i as int,
                ),
            decreases self.entries.len() - i,
        {
            if let Entry::Process(process) = self.entries[i] {
                if process.pid == pid {
                    return Some(i);
                }
            }
            i = i + 1;
        }
        None
    }

    /// Takes a process out. A reservation is never taken.
    pub fn remove(&mut self, pid: Pid) -> (r: Option<ProcessRef>)
        ensures
            match first_process(old(self)@.entries, pid, 0) {
                Some(i) => r matches Some(process) && old(self)@.entries[i] == Entry::Process(
                    process,
                ) && final(self)@ == (ProcessTableView {
                    entries: without(old(self)@.entries, i),
                    ..old(self)@
                }),
                None => r is None && final(self)@ == old(self)@,
            },
    {
        match self.process_position(pid) {
            None => None,
            Some(i) => {
                let entry = self.entries.swap_remove(i);
                assert(self@.entries =~= without(old(self)@.entries, i as int));
                match entry {
                    Entry::Process(process) => Some(process),
                    Entry::Reserved { .. } => None,
                }
            },
        }
    }
}

/// Numbers go up by one, and behind the last comes zero: no number is its own successor.
pub proof fn numbers_go_up(number: u64)
    ensures
        number < u64::MAX ==> next_number(number) == number + 1,
        next_number(u64::MAX) == 0,
        next_number(number) != number,
{
}

/// The first entry that matches is named, and none is named if none matches.
pub proof fn first_match_is_named(entries: Seq<Entry>, wanted: Entry, pid: Pid, from: int)
    requires
        0 <= from,
    ensures
        match first_equal(entries, wanted, from) {
            Some(i) => from <= i < entries.len() && entries[i] == wanted && forall|j: int|
                from <= j < i ==> #[trigger] entries[j] != wanted,
            None => forall|j: int| from <= j < entries.len() ==> #[trigger] entries[j] != wanted,
        },
        match first_process(entries, pid, from) {
            Some(i) => {
                &&& from <= i < entries.len()
                &&& entries[i] matches Entry::Process(process) && process.pid == pid
                &&& forall|j: int|
                    from <= j < i ==> ((#[trigger] entries[j]) matches Entry::Process(process)
                        ==> process.pid != pid)
            },
            None => forall|j: int|
                from <= j < entries.len() ==> ((#[trigger] entries[j]) matches Entry::Process(
                    process,
                ) ==> process.pid != pid),
        },
    decreases entries.len() - from,
{
    if from < entries.len() {
        first_match_is_named(entries, wanted, pid, from + 1);
    }
}

/// Taking an entry out takes that one and no other: the last moves to its place, and all the
/// others stay where they are.
pub proof fn removal_takes_one(entries: Seq<Entry>, i: int)
    requires
        0 <= i < entries.len(),
    ensures
        without(entries, i).len() == entries.len() - 1,
        i < entries.len() - 1 ==> without(entries, i)[i] == entries.last(),
        forall|j: int|
            0 <= j < entries.len() - 1 && j != i ==> #[trigger] without(entries, i)[j]
                == entries[j],
{
}

} // verus!
