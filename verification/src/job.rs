//! Jobs: the tree of domains in which processes are created.
//!
//! A job holds its direct child jobs and its direct member processes, some of them
//! only reserved by a creation that is still under way. Sealing a job closes
//! creation in it and below it for good. A sealed job with nothing left in it is
//! complete: it is declared dead, tells its observers, leaves its parent, and may
//! complete the parent in turn.
use vstd::prelude::*;

use crate::error::SystemCallError;
use crate::handle;
use crate::handle::{ProcessHandleEntry, TableError};
use crate::ids;
use crate::ids::IdSequence;
use crate::lifecycle::{BeginFault, Lifecycle};
use crate::object::{HandleRole, ObjectKind, ObjectWaitState, WaitView};
use crate::ordered_table;
use crate::ordered_table::{Entry, InsertError, OrderedTable, TableView};
use crate::rights;
use crate::rights::Rights;
use crate::signals;
use crate::signals::ObjectSignals;

verus! {

pub type JobId = u64;

pub type Pid = u64;

/// How deep the tree may be, the root included.
pub const JOB_DEPTH_MAX: usize = 32;

/// How many direct members, and how many direct children, a job may have.
pub const JOB_DIRECT_ENTRY_LIMIT: usize = 65_536;

/// How an insertion failure is reported.
pub fn table_insert_error(error: InsertError) -> (r: SystemCallError)
    ensures
        r == insert_reported(error),
{
    match error {
        InsertError::Limit => SystemCallError::ReachLimit,
        InsertError::Allocation => SystemCallError::OutOfMemory,
    }
}

/// How an insertion failure is reported.
pub open spec fn insert_reported(error: InsertError) -> SystemCallError {
    match error {
        InsertError::Limit => SystemCallError::ReachLimit,
        InsertError::Allocation => SystemCallError::OutOfMemory,
    }
}

/// One job of the tree.
pub struct Job {
    jid: JobId,
    parent_jid: JobId,
    parent: Option<usize>,
    children: OrderedTable,
    members: OrderedTable,
    sealed: bool,
    dead: bool,
    released: bool,
    wait: ObjectWaitState,
}

/// One job of the tree, as a value.
#[verifier::ext_equal]
pub struct JobView {
    pub jid: JobId,
    /// Identity of the parent, zero for the root; it outlives the parent.
    pub parent_jid: JobId,
    /// Position of the parent in the tree.
    pub parent: Option<usize>,
    /// Child jobs by identity; a live entry holds the child's position.
    pub children: TableView,
    /// Member processes by identity.
    pub members: TableView,
    pub sealed: bool,
    pub dead: bool,
    /// Nothing refers to the job any more.
    pub released: bool,
    pub wait: WaitView,
}

impl View for Job {
    type V = JobView;

    closed spec fn view(&self) -> JobView {
        JobView {
            jid: self.jid,
            parent_jid: self.parent_jid,
            parent: self.parent,
            children: self.children@,
            members: self.members@,
            sealed: self.sealed,
            dead: self.dead,
            released: self.released,
            wait: self.wait@,
        }
    }
}

impl JobView {
    /// The job is complete but not declared dead yet.
    pub open spec fn ready(self) -> bool {
        self.sealed && !self.dead && self.members.entries.len() == 0 && self.children.entries.len()
            == 0
    }

    /// The job, declared dead if it is complete.
    pub open spec fn settled(self) -> JobView {
        JobView { dead: self.dead || self.ready(), ..self }
    }

    /// The job with its observers told.
    pub open spec fn published(self) -> JobView {
        JobView { wait: self.wait.updated(signals::NONE, signals::CLOSED), ..self }
    }

    /// The job without member `pid`.
    pub open spec fn without_member(self, pid: Pid) -> JobView {
        JobView { members: self.members.removed(pid), ..self }
    }

    /// The job without child `jid`.
    pub open spec fn without_child(self, jid: JobId) -> JobView {
        JobView { children: self.children.removed(jid), ..self }
    }

    /// What holds of a job by itself. It shows no level until it is dead, and then the
    /// terminal one once its observers were told.
    pub open spec fn wf(self) -> bool {
        &&& self.children.wf()
        &&& self.members.wf()
        &&& self.children.limit == JOB_DIRECT_ENTRY_LIMIT
        &&& self.members.limit == JOB_DIRECT_ENTRY_LIMIT
        &&& self.dead ==> self.sealed && self.members.entries.len() == 0
            && self.children.entries.len() == 0
        &&& self.released ==> self.dead
        &&& self.wait.signals == signals::NONE || (self.dead && self.wait.signals
            == signals::CLOSED)
    }
}

/// Telling the observers of a job shows the terminal level alone.
proof fn publish_shows(job: JobView)
    requires
        job.wait.signals == signals::NONE || job.wait.signals == signals::CLOSED,
    ensures
        job.published().wait.signals == signals::CLOSED,
{
    signals::closed_is_last();
    assert((0u64 & !0u64) | 0x100 == 0x100 && 0x100u64 & !0u64 == 0x100 && 0u64 & 0x100 == 0)
        by (bit_vector);
}

impl Job {
    pub closed spec fn wf(&self) -> bool {
        self@.wf() && self.wait.wf()
    }

    fn new(jid: JobId, parent_jid: JobId, parent: Option<usize>) -> (r: Job)
        ensures
            r.wf(),
            r@ == JobView::fresh(jid, parent_jid, parent),
    {
        Job {
            jid,
            parent_jid,
            parent,
            children: OrderedTable::new(JOB_DIRECT_ENTRY_LIMIT),
            members: OrderedTable::new(JOB_DIRECT_ENTRY_LIMIT),
            sealed: false,
            dead: false,
            released: false,
            wait: ObjectWaitState::new(signals::NONE),
        }
    }

    /// Declares the job dead if it is complete, once.
    fn complete_if_ready(&mut self) -> (r: bool)
        requires
            old(self).wf(),
        ensures
            final(self).wf(),
            r == old(self)@.ready(),
            final(self)@ == old(self)@.settled(),
    {
        if self.sealed && !self.dead && self.members.len() == 0 && self.children.len() == 0 {
            self.dead = true;
            true
        } else {
            false
        }
    }
}

impl JobView {
    /// A job that has just been made: open, with nothing in it.
    pub open spec fn fresh(jid: JobId, parent_jid: JobId, parent: Option<usize>) -> JobView {
        let nothing = TableView { entries: Seq::empty(), limit: JOB_DIRECT_ENTRY_LIMIT };
        JobView {
            jid,
            parent_jid,
            parent,
            children: nothing,
            members: nothing,
            sealed: false,
            dead: false,
            released: false,
            wait: WaitView::fresh(signals::NONE),
        }
    }
}

/// All jobs, parents before their children, and the identities to come.
pub struct JobTree {
    jobs: Vec<Job>,
    next_jid: IdSequence,
    next_pid: IdSequence,
    next_token: IdSequence,
}

/// All jobs, as a value.
#[verifier::ext_equal]
pub struct TreeView {
    pub jobs: Seq<JobView>,
    pub next_jid: Option<u64>,
    pub next_pid: Option<u64>,
    pub next_token: Option<u64>,
}

impl View for JobTree {
    type V = TreeView;

    closed spec fn view(&self) -> TreeView {
        TreeView {
            jobs: self.jobs@.map_values(|j: Job| j@),
            next_jid: self.next_jid@,
            next_pid: self.next_pid@,
            next_token: self.next_token@,
        }
    }
}

/// Walks from job `j` up to the root, where `k` jobs are on the way already and
/// there is room for `room`. The walk fails when it runs out of room, gets deeper
/// than the tree may be, or meets an ancestor that is gone.
pub open spec fn walk_up(jobs: Seq<JobView>, j: int, k: int, room: int) -> Result<
    int,
    SystemCallError,
>
    decreases j,
{
    if k >= room {
        Err(SystemCallError::OutOfMemory)
    } else if k + 1 > JOB_DEPTH_MAX {
        Err(SystemCallError::IllegalArgument)
    } else {
        match jobs[j].parent {
            None => Ok(k + 1),
            Some(p) => if !(0 <= p < j) || jobs[p as int].released {
                Err(SystemCallError::ObjectClosed)
            } else {
                walk_up(jobs, p as int, k + 1, room)
            },
        }
    }
}

/// Job `j` or one of its ancestors is sealed.
pub open spec fn sealed_above(jobs: Seq<JobView>, j: int) -> bool
    decreases j,
{
    jobs[j].sealed || (jobs[j].parent matches Some(p) && 0 <= p < j && sealed_above(
        jobs,
        p as int,
    ))
}

/// An ancestor of job `j` is gone.
pub open spec fn gone_above(jobs: Seq<JobView>, j: int) -> bool
    decreases j,
{
    jobs[j].parent matches Some(p) && 0 <= p < j && (jobs[p as int].released || gone_above(
        jobs,
        p as int,
    ))
}

/// How deep job `j` lies; the root has depth one.
pub open spec fn depth(jobs: Seq<JobView>, j: int) -> nat
    decreases j,
{
    match jobs[j].parent {
        Some(p) => if 0 <= p < j {
            1 + depth(jobs, p as int)
        } else {
            1
        },
        None => 1,
    }
}

/// No job lies too deep, and one with children or reservations for them leaves room for
/// another level.
pub open spec fn shallow(jobs: Seq<JobView>) -> bool {
    forall|j: int|
        #![trigger depth(jobs, j)]
        0 <= j < jobs.len() ==> depth(jobs, j) <= JOB_DEPTH_MAX && (
        jobs[j].children.entries.len() > 0 ==> depth(jobs, j) < JOB_DEPTH_MAX)
}

/// What holds of all jobs together: a parent comes before its children, no job lies too
/// deep, no two jobs share an identity, a job that is not dead is a live entry of its
/// parent, and identities to come are larger than those in use.
pub open spec fn tree_wf(t: TreeView) -> bool {
    &&& t.jobs.len() <= usize::MAX
    &&& forall|j: int| 0 <= j < t.jobs.len() ==> (#[trigger] t.jobs[j]).wf()
    &&& forall|j: int|
        0 <= j < t.jobs.len() ==> ((#[trigger] t.jobs[j]).parent matches Some(p) ==> p < j)
    &&& shallow(t.jobs)
    &&& forall|i: int, j: int|
        0 <= i < j < t.jobs.len() ==> (#[trigger] t.jobs[i]).jid != (#[trigger] t.jobs[j]).jid
    &&& forall|j: int| 0 <= j < t.jobs.len() && !(#[trigger] t.jobs[j]).dead ==> attached(t.jobs, j)
    &&& forall|j: int|
        0 <= j < t.jobs.len() ==> ids::spent(t.next_jid, (#[trigger] t.jobs[j]).jid)
    &&& forall|j: int, k: int|
        0 <= j < t.jobs.len() && 0 <= k < t.jobs[j].members.entries.len() ==> ids::spent(
            t.next_pid,
            (#[trigger] t.jobs[j].members.entries[k]).0,
        )
    &&& forall|j: int, k: int|
        0 <= j < t.jobs.len() && 0 <= k < t.jobs[j].children.entries.len() ==> ids::spent(
            t.next_jid,
            (#[trigger] t.jobs[j].children.entries[k]).0,
        )
    &&& forall|j: int, k: int, i: int|
        0 <= j < t.jobs.len() && 0 <= k < t.jobs[j].children.entries.len() && (
        #[trigger] t.jobs[j].children.entries[k]).1 is Reserved && 0 <= i < t.jobs.len() ==> (
        #[trigger] t.jobs[i]).jid != t.jobs[j].children.entries[k].0
    &&& forall|a: int, k: int, b: int, m: int|
        0 <= a < t.jobs.len() && 0 <= b < t.jobs.len() && a != b && 0 <= k
            < t.jobs[a].children.entries.len() && 0 <= m < t.jobs[b].children.entries.len() && (
        #[trigger] t.jobs[a].children.entries[k]).1 is Reserved
            ==> t.jobs[a].children.entries[k].0 != (#[trigger] t.jobs[b].children.entries[m]).0
}

/// Identity `key` belongs to no job and is entered nowhere.
pub open spec fn fresh(t: TreeView, key: u64) -> bool {
    &&& forall|i: int| 0 <= i < t.jobs.len() ==> (#[trigger] t.jobs[i]).jid != key
    &&& forall|b: int, m: int|
        0 <= b < t.jobs.len() && 0 <= m < t.jobs[b].children.entries.len() ==> (
        #[trigger] t.jobs[b].children.entries[m]).0 != key
}

/// Every entry of `children` was one of job `j`, with no reservation that was none
/// before, or has a fresh identity.
spec fn derives(t: TreeView, j: int, children: TableView) -> bool {
    forall|k: int|
        0 <= k < children.entries.len() ==> from_old(t, j, #[trigger] children.entries[k]) || fresh(
            t,
            children.entries[k].0,
        )
}

spec fn from_old(t: TreeView, j: int, pair: (u64, Entry)) -> bool {
    exists|m: int|
        0 <= m < t.jobs[j].children.entries.len() && (#[trigger] t.jobs[j].children.entries[m]).0
            == pair.0 && (pair.1 is Reserved ==> t.jobs[j].children.entries[m].1 is Reserved)
}

/// Job `j` is a live entry of its parent; the root has none.
pub open spec fn attached(jobs: Seq<JobView>, j: int) -> bool {
    jobs[j].parent matches Some(p) ==> jobs[p as int].children.entry(jobs[j].jid) == Some(
        Entry::Live(j as u64),
    )
}

/// A transaction's claim on a member entry.
#[derive(Clone, Copy, Debug, PartialEq, Eq, Structural)]
pub struct MemberReservation {
    pub pid: Pid,
    pub token: u64,
}

/// A transaction's claim on a child entry.
#[derive(Clone, Copy, Debug, PartialEq, Eq, Structural)]
pub struct ChildReservation {
    pub jid: JobId,
    pub token: u64,
}

/// Where the parents are the same, so is the depth.
proof fn same_depth(jobs: Seq<JobView>, after: Seq<JobView>, j: int)
    requires
        0 <= j < jobs.len() <= after.len(),
        forall|i: int|
            0 <= i < jobs.len() ==> (#[trigger] after[i]).parent == jobs[i].parent,
    ensures
        depth(after, j) == depth(jobs, j),
    decreases j,
{
    assert(after[j].parent == jobs[j].parent);
    if let Some(p) = jobs[j].parent {
        if p < j {
            same_depth(jobs, after, p as int);
        }
    }
}

/// Where the parents are the same, and the same of them are gone, so is the walk up.
proof fn same_walk(jobs: Seq<JobView>, after: Seq<JobView>, j: int, k: int, room: int)
    requires
        0 <= j < jobs.len() <= after.len(),
        forall|i: int|
            0 <= i < jobs.len() ==> (#[trigger] after[i]).parent == jobs[i].parent
                && after[i].released == jobs[i].released,
    ensures
        walk_up(after, j, k, room) == walk_up(jobs, j, k, room),
    decreases j,
{
    assert(after[j].parent == jobs[j].parent);
    if let Some(p) = jobs[j].parent {
        if p < j {
            assert(after[p as int].released == jobs[p as int].released);
            same_walk(jobs, after, p as int, k + 1, room);
        }
    }
}

/// The walk up counts the levels.
proof fn walk_counts_levels(jobs: Seq<JobView>, j: int, k: int, room: int)
    requires
        0 <= j < jobs.len(),
    ensures
        walk_up(jobs, j, k, room) matches Ok(n) ==> n == k + depth(jobs, j),
    decreases j,
{
    if let Some(p) = jobs[j].parent {
        if p < j {
            walk_counts_levels(jobs, p as int, k + 1, room);
        }
    }
}

/// With room enough, the walk up fails only at an ancestor that is gone, and then a job
/// above is sealed.
proof fn walk_reaches_the_root(t: TreeView, j: int, k: int, room: int)
    requires
        tree_wf(t),
        0 <= j < t.jobs.len(),
        0 <= k,
        k + depth(t.jobs, j) <= JOB_DEPTH_MAX,
        k + depth(t.jobs, j) <= room,
    ensures
        walk_up(t.jobs, j, k, room) == if gone_above(t.jobs, j) {
            Err::<int, _>(SystemCallError::ObjectClosed)
        } else {
            Ok(k + depth(t.jobs, j))
        },
        gone_above(t.jobs, j) ==> sealed_above(t.jobs, j),
    decreases j,
{
    if let Some(p) = t.jobs[j].parent {
        assert(p < j);
        assert(t.jobs[p as int].wf());
        if !t.jobs[p as int].released {
            walk_reaches_the_root(t, p as int, k + 1, room);
        } else {
            assert(sealed_above(t.jobs, p as int));
        }
    }
}

/// Changing one job keeps the tree well formed if its identity, its parent and its
/// live children stay, and nothing dead comes back.
proof fn update_keeps_wf(t: TreeView, after: TreeView, j: int)
    requires
        tree_wf(t),
        0 <= j < t.jobs.len(),
        after.jobs.len() == t.jobs.len(),
        forall|i: int| 0 <= i < t.jobs.len() && i != j ==> after.jobs[i] == t.jobs[i],
        after.jobs[j].wf(),
        after.jobs[j].jid == t.jobs[j].jid,
        after.jobs[j].parent == t.jobs[j].parent,
        t.jobs[j].dead ==> after.jobs[j].dead,
        after.jobs[j].children.entries.len() > 0 ==> t.jobs[j].children.entries.len() > 0 || depth(
            t.jobs,
            j,
        ) < JOB_DEPTH_MAX,
        derives(t, j, after.jobs[j].children),
        forall|i: int|
            0 <= i < t.jobs.len() && !(#[trigger] t.jobs[i]).dead && t.jobs[i].parent == Some(
                j as usize,
            ) ==> after.jobs[j].children.entry(t.jobs[i].jid) == Some(Entry::Live(i as u64)),
        forall|k: int|
            0 <= k < after.jobs[j].members.entries.len() ==> ids::spent(
                after.next_pid,
                (#[trigger] after.jobs[j].members.entries[k]).0,
            ),
        forall|k: int|
            0 <= k < after.jobs[j].children.entries.len() ==> ids::spent(
                after.next_jid,
                (#[trigger] after.jobs[j].children.entries[k]).0,
            ),
        after.next_jid == t.next_jid || after.next_jid == ids::after(t.next_jid),
        after.next_pid == t.next_pid || after.next_pid == ids::after(t.next_pid),
    ensures
        tree_wf(after),
{
    assert forall|i: int|
        #![trigger depth(after.jobs, i)]
        0 <= i < after.jobs.len() implies depth(after.jobs, i) <= JOB_DEPTH_MAX && (
    after.jobs[i].children.entries.len() > 0 ==> depth(after.jobs, i) < JOB_DEPTH_MAX) by {
        same_depth(t.jobs, after.jobs, i);
        same_depth(t.jobs, after.jobs, j);
        assert(depth(t.jobs, i) <= JOB_DEPTH_MAX);
    }
    assert forall|i: int| 0 <= i < after.jobs.len() implies ((
    #[trigger] after.jobs[i]).parent matches Some(p) ==> p < i) by {
        assert(after.jobs[i].parent == t.jobs[i].parent);
    }
    assert forall|a: int, b: int| 0 <= a < b < after.jobs.len() implies (
    #[trigger] after.jobs[a]).jid != (#[trigger] after.jobs[b]).jid by {
        assert(after.jobs[a].jid == t.jobs[a].jid && after.jobs[b].jid == t.jobs[b].jid);
    }
    assert forall|i: int| 0 <= i < after.jobs.len() && !(#[trigger] after.jobs[i]).dead implies attached(
        after.jobs,
        i,
    ) by {
        assert(!t.jobs[i].dead);
        assert(attached(t.jobs, i));
        if let Some(p) = t.jobs[i].parent {
            assert(p < i);
        }
    }
    assert forall|i: int| 0 <= i < after.jobs.len() implies ids::spent(
        after.next_jid,
        (#[trigger] after.jobs[i]).jid,
    ) by {
        assert(ids::spent(t.next_jid, t.jobs[i].jid));
    }
    assert forall|i: int, k: int|
        0 <= i < after.jobs.len() && 0 <= k < after.jobs[i].members.entries.len() implies ids::spent(
        after.next_pid,
        (#[trigger] after.jobs[i].members.entries[k]).0,
    ) by {
        if i != j {
            assert(ids::spent(t.next_pid, t.jobs[i].members.entries[k].0));
        }
    }
    assert forall|i: int, k: int|
        0 <= i < after.jobs.len() && 0 <= k < after.jobs[i].children.entries.len() implies ids::spent(
        after.next_jid,
        (#[trigger] after.jobs[i].children.entries[k]).0,
    ) by {
        if i != j {
            assert(ids::spent(t.next_jid, t.jobs[i].children.entries[k].0));
        }
    }
    assert forall|a: int, k: int, i: int|
        0 <= a < after.jobs.len() && 0 <= k < after.jobs[a].children.entries.len() && (
        #[trigger] after.jobs[a].children.entries[k]).1 is Reserved && 0 <= i
            < after.jobs.len() implies (#[trigger] after.jobs[i]).jid
        != after.jobs[a].children.entries[k].0 by {
        assert(after.jobs[i].jid == t.jobs[i].jid);
        if a == j {
            assert(from_old(t, j, after.jobs[j].children.entries[k]) || fresh(
                t,
                after.jobs[j].children.entries[k].0,
            ));
        } else {
            assert(t.jobs[a].children.entries[k].1 is Reserved);
        }
    }
    assert forall|a: int, k: int, b: int, m: int|
        0 <= a < after.jobs.len() && 0 <= b < after.jobs.len() && a != b && 0 <= k
            < after.jobs[a].children.entries.len() && 0 <= m
            < after.jobs[b].children.entries.len() && (
        #[trigger] after.jobs[a].children.entries[k]).1 is Reserved implies after.jobs[a].children.entries[k].0
        != (#[trigger] after.jobs[b].children.entries[m]).0 by {
        let x = after.jobs[a].children.entries[k];
        let y = after.jobs[b].children.entries[m];
        if a == j {
            assert(from_old(t, j, x) || fresh(t, x.0));
            assert(t.jobs[b].children.entries[m] == y);
        } else if b == j {
            assert(from_old(t, j, y) || fresh(t, y.0));
            assert(t.jobs[a].children.entries[k] == x);
        } else {
            assert(t.jobs[a].children.entries[k] == x);
            assert(t.jobs[b].children.entries[m] == y);
        }
    }
}

/// A table with the same entries derives from the job's.
proof fn derives_same(t: TreeView, j: int)
    requires
        0 <= j < t.jobs.len(),
    ensures
        derives(t, j, t.jobs[j].children),
{
    let children = t.jobs[j].children;
    assert forall|k: int| 0 <= k < children.entries.len() implies from_old(
        t,
        j,
        #[trigger] children.entries[k],
    ) by {
        assert(t.jobs[j].children.entries[k].0 == children.entries[k].0);
    }
}

/// So do the tables that the operations on one identity give.
proof fn derives_ops(t: TreeView, j: int, key: u64, entry: Entry)
    requires
        tree_wf(t),
        0 <= j < t.jobs.len(),
    ensures
        fresh(t, key) && t.jobs[j].children.entries.len() < JOB_DIRECT_ENTRY_LIMIT ==> derives(
            t,
            j,
            t.jobs[j].children.inserted(key, entry),
        ),
        t.jobs[j].children.has(key) && entry is Live ==> derives(
            t,
            j,
            t.jobs[j].children.replaced(key, entry),
        ),
        t.jobs[j].children.has(key) ==> derives(t, j, t.jobs[j].children.removed(key)),
{
    let children = t.jobs[j].children;
    let i = children.place(key);
    ordered_table::rank_facts(children.entries, key, 0);
    if fresh(t, key) && children.entries.len() < JOB_DIRECT_ENTRY_LIMIT {
        let after = children.inserted(key, entry);
        assert forall|k: int| 0 <= k < after.entries.len() implies from_old(
            t,
            j,
            #[trigger] after.entries[k],
        ) || fresh(t, after.entries[k].0) by {
            if k < i {
                assert(t.jobs[j].children.entries[k] == after.entries[k]);
            } else if k > i {
                assert(t.jobs[j].children.entries[k - 1] == after.entries[k]);
            }
        }
    }
    if children.has(key) {
        if entry is Live {
            let after = children.replaced(key, entry);
            assert forall|k: int| 0 <= k < after.entries.len() implies from_old(
                t,
                j,
                #[trigger] after.entries[k],
            ) || fresh(t, after.entries[k].0) by {
                assert(t.jobs[j].children.entries[k].0 == after.entries[k].0);
            }
        }
        let gone = children.removed(key);
        assert forall|k: int| 0 <= k < gone.entries.len() implies from_old(
            t,
            j,
            #[trigger] gone.entries[k],
        ) || fresh(t, gone.entries[k].0) by {
            if k < i {
                assert(t.jobs[j].children.entries[k] == gone.entries[k]);
            } else {
                assert(t.jobs[j].children.entries[k + 1] == gone.entries[k]);
            }
        }
    }
}

/// Children that are not dead are live entries of job `j`.
proof fn live_children(t: TreeView, j: int)
    requires
        tree_wf(t),
        0 <= j < t.jobs.len(),
    ensures
        forall|i: int|
            0 <= i < t.jobs.len() && !(#[trigger] t.jobs[i]).dead && t.jobs[i].parent == Some(
                j as usize,
            ) ==> t.jobs[j].children.entry(t.jobs[i].jid) == Some(Entry::Live(i as u64)),
{
    assert forall|i: int|
        0 <= i < t.jobs.len() && !(#[trigger] t.jobs[i]).dead && t.jobs[i].parent == Some(
            j as usize,
        ) implies t.jobs[j].children.entry(t.jobs[i].jid) == Some(Entry::Live(i as u64)) by {
        assert(attached(t.jobs, i));
    }
}

impl TreeView {
    /// Whether something may be created in job `j`, where there is room to remember
    /// `room` jobs on the way up, and to lock them if `lock_room`.
    pub open spec fn gate(self, j: int, room: int, lock_room: bool) -> Result<
        (),
        SystemCallError,
    > {
        match walk_up(self.jobs, j, 0, room) {
            Err(error) => Err(error),
            Ok(_) => if !lock_room {
                Err(SystemCallError::OutOfMemory)
            } else if sealed_above(self.jobs, j) {
                Err(SystemCallError::ObjectClosed)
            } else {
                Ok(())
            },
        }
    }

    /// Whether a job may be created in job `j`.
    pub open spec fn child_gate(self, j: int, room: int, lock_room: bool) -> Result<
        (),
        SystemCallError,
    > {
        match walk_up(self.jobs, j, 0, room) {
            Ok(depth) => if depth >= JOB_DEPTH_MAX {
                Err(SystemCallError::IllegalArgument)
            } else {
                self.gate(j, room, lock_room)
            },
            Err(error) => Err(error),
        }
    }

    /// The tree with the members of job `j` changed.
    pub open spec fn with_members(self, j: int, members: TableView) -> TreeView {
        TreeView {
            jobs: self.jobs.update(j, JobView { members, ..self.jobs[j] }),
            ..self
        }
    }

    /// The tree with the children of job `j` changed.
    pub open spec fn with_children(self, j: int, children: TableView) -> TreeView {
        TreeView {
            jobs: self.jobs.update(j, JobView { children, ..self.jobs[j] }),
            ..self
        }
    }

    /// The tree with the observers of job `j` changed.
    pub open spec fn with_observers(self, j: int, wait: WaitView) -> TreeView {
        TreeView { jobs: self.jobs.update(j, JobView { wait, ..self.jobs[j] }), ..self }
    }

    /// The tree with one more job.
    pub open spec fn grown(self, job: JobView) -> TreeView {
        TreeView { jobs: self.jobs.push(job), ..self }
    }

    /// The tree with a new job `jid` in job `j`.
    pub open spec fn with_child(self, j: int, jid: JobId) -> TreeView {
        self.with_children(
            j,
            self.jobs[j].children.inserted(jid, Entry::Live(self.jobs.len() as u64)),
        ).grown(JobView::fresh(jid, self.jobs[j].jid, Some(j as usize)))
    }

    /// The tree with process `process` as member `pid` of job `j`.
    pub open spec fn with_member(self, j: int, pid: Pid, process: u64) -> TreeView {
        self.with_members(j, self.jobs[j].members.inserted(pid, Entry::Live(process)))
    }

    /// What an attempt to create a job in job `j` draws, whether or not it succeeds: a
    /// token and then an identity, if the way up is open.
    pub open spec fn child_drawn(self, j: int, room: int, lock_room: bool) -> TreeView {
        if self.child_gate(j, room, lock_room) is Err || self.next_token is None {
            self
        } else if self.next_jid is None {
            self.token_taken()
        } else {
            self.token_taken().jid_taken()
        }
    }

    /// What an attempt to create a process in job `j` draws.
    pub open spec fn member_drawn(self, j: int, room: int, lock_room: bool) -> TreeView {
        if self.gate(j, room, lock_room) is Err || self.next_token is None {
            self
        } else if self.next_pid is None {
            self.token_taken()
        } else {
            self.token_taken().pid_taken()
        }
    }

    /// The tree once a token was taken.
    pub open spec fn token_taken(self) -> TreeView {
        TreeView { next_token: ids::after(self.next_token), ..self }
    }

    /// The tree once a process identity was taken.
    pub open spec fn pid_taken(self) -> TreeView {
        TreeView { next_pid: ids::after(self.next_pid), ..self }
    }

    /// The tree once a job identity was taken.
    pub open spec fn jid_taken(self) -> TreeView {
        TreeView { next_jid: ids::after(self.next_jid), ..self }
    }

    /// `reservation` holds a member entry of job `j`.
    pub open spec fn holds_member(self, j: int, reservation: MemberReservation) -> bool {
        0 <= j < self.jobs.len() && self.jobs[j].members.entry(reservation.pid) == Some(
            Entry::Reserved { token: reservation.token },
        )
    }

    /// `reservation` holds a child entry of job `j`.
    pub open spec fn holds_child(self, j: int, reservation: ChildReservation) -> bool {
        0 <= j < self.jobs.len() && self.jobs[j].children.entry(reservation.jid) == Some(
            Entry::Reserved { token: reservation.token },
        )
    }
}

/// Which direct entries of a job are meant.
#[derive(Clone, Copy, Debug, PartialEq, Eq, Structural)]
pub enum JobMemberKind {
    ChildJobs,
    MemberProcesses,
}

#[derive(Clone, Copy, Debug, PartialEq, Eq, Structural)]
pub enum JobState {
    Open,
    Sealed,
    Dead,
}

/// What a query of a job tells.
#[derive(Clone, Copy, Debug, PartialEq, Eq, Structural)]
pub struct JobSnapshot {
    pub jid: JobId,
    pub parent_jid: JobId,
    pub state: JobState,
    pub live_processes: u32,
    pub live_children: u32,
}

/// One page of an enumeration.
pub struct JobPage {
    pub ids: Vec<u64>,
    /// Where the next page starts.
    pub next_cursor: u64,
    /// An entry follows the page.
    pub more: bool,
}

/// The identities on a page of at most `cap` after `cursor`.
pub open spec fn page_ids(table: TableView, cursor: u64, cap: int) -> Seq<u64> {
    ordered_table::keys(table.entries, table.page_start(cursor), table.page_end(cursor, cap))
}

/// Where the next page begins.
pub open spec fn page_cursor(table: TableView, cursor: u64, cap: int) -> u64 {
    if page_ids(table, cursor, cap).len() > 0 {
        page_ids(table, cursor, cap).last()
    } else {
        cursor
    }
}

/// Something stands behind the page.
pub open spec fn page_more(table: TableView, cursor: u64, cap: int) -> bool {
    table.page_end(cursor, cap) < table.entries.len()
}

/// The number that callers use for a kind of entry.
pub open spec fn kind_of(raw: u64) -> Result<JobMemberKind, SystemCallError> {
    if raw == 0 {
        Ok(JobMemberKind::ChildJobs)
    } else if raw == 1 {
        Ok(JobMemberKind::MemberProcesses)
    } else {
        Err(SystemCallError::IllegalArgument)
    }
}

/// What a query tells of a job. A dead job counts nothing.
pub open spec fn tells(job: JobView, snapshot: JobSnapshot) -> bool {
    &&& snapshot.jid == job.jid
    &&& snapshot.parent_jid == job.parent_jid
    &&& snapshot.state == job.state()
    &&& snapshot.live_processes == ordered_table::live_count(
        job.members.entries,
        job.members.entries.len() as int,
    )
    &&& snapshot.live_children == ordered_table::live_count(
        job.children.entries,
        job.children.entries.len() as int,
    )
    &&& job.dead ==> snapshot.live_processes == 0 && snapshot.live_children == 0
}

pub fn parse_member_kind(raw: u64) -> (r: Result<JobMemberKind, SystemCallError>)
    ensures
        r == kind_of(raw),
{
    if raw == 0 {
        Ok(JobMemberKind::ChildJobs)
    } else if raw == 1 {
        Ok(JobMemberKind::MemberProcesses)
    } else {
        Err(SystemCallError::IllegalArgument)
    }
}

impl JobView {
    /// The entries of one kind.
    pub open spec fn table(self, kind: JobMemberKind) -> TableView {
        match kind {
            JobMemberKind::ChildJobs => self.children,
            JobMemberKind::MemberProcesses => self.members,
        }
    }

    pub open spec fn state(self) -> JobState {
        if self.dead {
            JobState::Dead
        } else if self.sealed {
            JobState::Sealed
        } else {
            JobState::Open
        }
    }

    /// What stands under `id`, if it is visible.
    pub open spec fn visible(self, kind: JobMemberKind, id: u64) -> Option<u64> {
        match self.table(kind).entry(id) {
            Some(Entry::Live(object)) => Some(object),
            _ => None,
        }
    }
}

/// One step of a completion on its way up.
#[derive(Clone, Copy, Debug, PartialEq, Eq, Structural)]
pub enum CursorStep {
    /// This job's observers were told; they are to be scheduled.
    Published(usize),
    /// The job left its parent, which is complete in turn.
    Climbed,
    /// Nothing is left to do.
    Done,
}

/// A completion on its way up: the job that completed, and whether its observers
/// were told. A step is one publication or one removal, so the walk can pause
/// between any two.
#[derive(Clone, Copy, Debug, PartialEq, Eq, Structural)]
pub struct CompletionCursor {
    pub child: usize,
    pub published: bool,
}

impl CompletionCursor {
    /// The cursor stands on a dead job that has not left its parent yet.
    pub open spec fn on(self, t: TreeView) -> bool {
        &&& self.child < t.jobs.len()
        &&& t.jobs[self.child as int].dead
        &&& attached(t.jobs, self.child as int)
    }
}

/// The jobs after job `c`, which is complete, has told its observers and gone up
/// the tree as far as it goes; and the jobs that told their observers, in order.
pub open spec fn closing(jobs: Seq<JobView>, c: int) -> (Seq<JobView>, Seq<usize>)
    decreases c, 1int,
{
    let (after, path) = climbing(jobs.update(c, jobs[c].published()), c);
    (after, seq![c as usize] + path)
}

/// The same, once job `c` has told its observers.
pub open spec fn climbing(jobs: Seq<JobView>, c: int) -> (Seq<JobView>, Seq<usize>)
    decreases c, 0int,
{
    match jobs[c].parent {
        Some(p) => if p < c {
            let rest = jobs[p as int].without_child(jobs[c].jid);
            let next = jobs.update(p as int, rest.settled());
            if rest.ready() {
                closing(next, p as int)
            } else {
                (next, Seq::empty())
            }
        } else {
            (jobs, Seq::empty())
        },
        None => (jobs, Seq::empty()),
    }
}

impl TreeView {
    /// The tree with job `j` sealed, its completion carried up if it is complete with
    /// that; and the jobs that told their observers.
    pub open spec fn sealing(self, j: int) -> (TreeView, Seq<usize>) {
        let sealed = JobView { sealed: true, ..self.jobs[j] };
        let jobs = self.jobs.update(j, sealed.settled());
        if self.jobs[j].dead {
            (self, Seq::empty())
        } else if sealed.ready() {
            (TreeView { jobs: closing(jobs, j).0, ..self }, closing(jobs, j).1)
        } else {
            (TreeView { jobs, ..self }, Seq::empty())
        }
    }
}

impl JobTree {
    /// What every operation keeps.
    pub closed spec fn wf(&self) -> bool {
        &&& forall|j: int| 0 <= j < self.jobs.len() ==> (#[trigger] self.jobs[j]).wf()
        &&& tree_wf(self@)
    }

    /// The tree of an open root job; the root has the first identity.
    pub fn root() -> (r: JobTree)
        ensures
            r.wf(),
            r@ == (TreeView {
                jobs: seq![JobView::fresh(1, 0, None)],
                next_jid: Some(2u64),
                next_pid: Some(1u64),
                next_token: Some(1u64),
            }),
    {
        let mut next_jid = IdSequence::new();
        let jid: JobId = next_jid.allocate().unwrap();
        let root = Job::new(jid, 0, None);
        let mut jobs: Vec<Job> = Vec::new();
        jobs.push(root);
        let tree = JobTree {
            jobs,
            next_jid,
            next_pid: IdSequence::new(),
            next_token: IdSequence::new(),
        };
        assert(tree@.jobs =~= seq![JobView::fresh(1, 0, None)]);
        tree
    }

    /// The next process identity.
    pub fn alloc_pid(&mut self) -> (r: Option<Pid>)
        requires
            old(self).wf(),
        ensures
            final(self).wf(),
            r == old(self)@.next_pid,
            final(self)@ == (TreeView { next_pid: ids::after(old(self)@.next_pid), ..old(self)@ }),
    {
        let pid = self.next_pid.allocate();
        assert(self@.jobs =~= old(self)@.jobs);
        pid
    }

    /// Walks from job `j` up to the root; how many jobs are on the way. `room` is how
    /// many of them can be remembered.
    pub fn collect_chain(&self, j: usize, room: usize) -> (r: Result<usize, SystemCallError>)
        requires
            self.wf(),
            j < self@.jobs.len(),
        ensures
            match (r, walk_up(self@.jobs, j as int, 0, room as int)) {
                (Ok(n), Ok(m)) => n == m,
                (Err(e), Err(f)) => e == f,
                _ => false,
            },
    {
        let mut current: usize = j;
        let mut depth: usize = 0;
        loop
            invariant
                self.wf(),
                current < self@.jobs.len(),
                depth <= JOB_DEPTH_MAX,
                walk_up(self@.jobs, j as int, 0, room as int) == walk_up(
                    self@.jobs,
                    current as int,
                    depth as int,
                    room as int,
                ),
            decreases current,
        {
            assert(self@.jobs[current as int] == self.jobs[current as int]@);
            if depth >= room {
                return Err(SystemCallError::OutOfMemory);
            }
            depth = depth + 1;
            if depth > JOB_DEPTH_MAX {
                return Err(SystemCallError::IllegalArgument);
            }
            match self.jobs[current].parent {
                None => {
                    return Ok(depth);
                },
                Some(parent) => {
                    assert(self@.jobs[parent as int] == self.jobs[parent as int]@);
                    if self.jobs[parent].released {
                        return Err(SystemCallError::ObjectClosed);
                    }
                    current = parent;
                },
            }
        }
    }

    /// Whether job `j` or one of its ancestors is sealed.
    pub fn chain_sealed(&self, j: usize) -> (r: bool)
        requires
            self.wf(),
            j < self@.jobs.len(),
        ensures
            r == sealed_above(self@.jobs, j as int),
    {
        let mut current: usize = j;
        loop
            invariant
                self.wf(),
                current < self@.jobs.len(),
                sealed_above(self@.jobs, j as int) == sealed_above(self@.jobs, current as int),
            decreases current,
        {
            assert(self@.jobs[current as int] == self.jobs[current as int]@);
            if self.jobs[current].sealed {
                return true;
            }
            match self.jobs[current].parent {
                None => {
                    return false;
                },
                Some(parent) => {
                    current = parent;
                },
            }
        }
    }

    /// Whether something may be created in job `j`.
    fn gate(&self, j: usize, room: usize, lock_room: bool) -> (r: Result<(), SystemCallError>)
        requires
            self.wf(),
            j < self@.jobs.len(),
        ensures
            r == self@.gate(j as int, room as int, lock_room),
    {
        match self.collect_chain(j, room) {
            Err(error) => Err(error),
            Ok(_) => if !lock_room {
                Err(SystemCallError::OutOfMemory)
            } else if self.chain_sealed(j) {
                Err(SystemCallError::ObjectClosed)
            } else {
                Ok(())
            },
        }
    }

    /// Reserves an entry for a process that is about to be created in job `j`.
    /// `room`, `lock_room` and `entry_room` say what memory there is. Nothing is
    /// entered on failure; a token or an identity that was drawn stays spent.
    pub fn gate_reserve_member(
        &mut self,
        j: usize,
        room: usize,
        lock_room: bool,
        entry_room: bool,
    ) -> (r: Result<(Pid, MemberReservation), SystemCallError>)
        requires
            old(self).wf(),
            j < old(self)@.jobs.len(),
        ensures
            final(self).wf(),
            match old(self)@.gate(j as int, room as int, lock_room) {
                Err(error) => r == Err::<(Pid, MemberReservation), _>(error) && final(self)@
                    == old(self)@,
                Ok(_) => match (old(self)@.next_token, old(self)@.next_pid) {
                    (None, _) => r == Err::<(Pid, MemberReservation), _>(
                        SystemCallError::ReachLimit,
                    ) && final(self)@ == old(self)@,
                    (Some(_), None) => r == Err::<(Pid, MemberReservation), _>(
                        SystemCallError::ReachLimit,
                    ) && final(self)@ == old(self)@.token_taken(),
                    (Some(token), Some(pid)) => {
                        let drawn = old(self)@.token_taken().pid_taken();
                        let members = old(self)@.jobs[j as int].members;
                        if members.entries.len() >= JOB_DIRECT_ENTRY_LIMIT {
                            r == Err::<(Pid, MemberReservation), _>(SystemCallError::ReachLimit)
                                && final(self)@ == drawn
                        } else if !entry_room {
                            r == Err::<(Pid, MemberReservation), _>(SystemCallError::OutOfMemory)
                                && final(self)@ == drawn
                        } else {
                            &&& r == Ok::<_, SystemCallError>(
                                (pid, MemberReservation { pid, token }),
                            )
                            &&& final(self)@ == drawn.with_members(
                                j as int,
                                members.inserted(pid, Entry::Reserved { token }),
                            )
                            &&& final(self)@.holds_member(
                                j as int,
                                MemberReservation { pid, token },
                            )
                        }
                    },
                },
            },
    {
        match self.gate(j, room, lock_room) {
            Err(error) => {
                return Err(error);
            },
            Ok(_) => {},
        }
        let token = match self.take_token() {
            None => {
                return Err(SystemCallError::ReachLimit);
            },
            Some(token) => token,
        };
        let pid = match self.alloc_pid() {
            None => {
                return Err(SystemCallError::ReachLimit);
            },
            Some(pid) => pid,
        };
        proof {
            let members = self@.jobs[j as int].members;
            assert forall|k: int| 0 <= k < members.entries.len() implies (
            #[trigger] members.entries[k]).0 < pid by {
                assert(ids::spent(
                    old(self)@.next_pid,
                    old(self)@.jobs[j as int].members.entries[k].0,
                ));
            }
            ordered_table::larger_is_absent(members, pid);
        }
        match self.insert_member(j, pid, token, entry_room) {
            Err(error) => Err(error),
            Ok(_) => Ok((pid, MemberReservation { pid, token })),
        }
    }

    /// Draws a token.
    fn take_token(&mut self) -> (r: Option<u64>)
        requires
            old(self).wf(),
        ensures
            final(self).wf(),
            r == old(self)@.next_token,
            final(self)@ == old(self)@.token_taken(),
    {
        let token = self.next_token.allocate();
        assert(self@.jobs =~= old(self)@.jobs);
        token
    }

    /// Enters a reserved member.
    fn insert_member(&mut self, j: usize, pid: Pid, token: u64, entry_room: bool) -> (r: Result<
        (),
        SystemCallError,
    >)
        requires
            old(self).wf(),
            j < old(self)@.jobs.len(),
            !old(self)@.jobs[j as int].dead,
            !old(self)@.jobs[j as int].members.has(pid),
            ids::spent(old(self)@.next_pid, pid),
        ensures
            final(self).wf(),
            r == if old(self)@.jobs[j as int].members.entries.len() >= JOB_DIRECT_ENTRY_LIMIT {
                Err::<(), _>(SystemCallError::ReachLimit)
            } else if !entry_room {
                Err(SystemCallError::OutOfMemory)
            } else {
                Ok(())
            },
            final(self)@ == if r is Ok {
                old(self)@.with_members(
                    j as int,
                    old(self)@.jobs[j as int].members.inserted(pid, Entry::Reserved { token }),
                )
            } else {
                old(self)@
            },
            r is Ok ==> final(self)@.holds_member(j as int, MemberReservation { pid, token }),
    {
        let ghost before = self@;
        assert(self.jobs[j as int]@ == before.jobs[j as int]);
        let inserted = self.jobs[j].members.try_insert(pid, Entry::Reserved { token }, entry_room);
        match inserted {
            Err(error) => {
                assert(self@ =~= before);
                Err(table_insert_error(error))
            },
            Ok(_) => {
                proof {
                    let members = before.jobs[j as int].members;
                    let after = members.inserted(pid, Entry::Reserved { token });
                    ordered_table::insert_then_remove(members, pid, Entry::Reserved { token });
                    assert(self@ =~= before.with_members(j as int, after));
                    assert forall|k: int| 0 <= k < after.entries.len() implies ids::spent(
                        before.next_pid,
                        (#[trigger] after.entries[k]).0,
                    ) by {
                        ordered_table::rank_facts(members.entries, pid, 0);
                        let i = members.place(pid);
                        if k < i {
                            assert(after.entries[k] == members.entries[k]);
                        } else if k > i {
                            assert(after.entries[k] == members.entries[k - 1]);
                        }
                    }
                    live_children(before, j as int);
                    derives_same(before, j as int);
                    update_keeps_wf(before, self@, j as int);
                }
                Ok(())
            },
        }
    }

    /// Reserves an entry for a job that is about to be created in job `j`.
    pub fn gate_reserve_child(
        &mut self,
        j: usize,
        room: usize,
        lock_room: bool,
        entry_room: bool,
    ) -> (r: Result<(JobId, ChildReservation), SystemCallError>)
        requires
            old(self).wf(),
            j < old(self)@.jobs.len(),
        ensures
            final(self).wf(),
            match old(self)@.child_gate(j as int, room as int, lock_room) {
                Err(error) => r == Err::<(JobId, ChildReservation), _>(error) && final(self)@
                    == old(self)@,
                Ok(_) => match (old(self)@.next_token, old(self)@.next_jid) {
                    (None, _) => r == Err::<(JobId, ChildReservation), _>(
                        SystemCallError::ReachLimit,
                    ) && final(self)@ == old(self)@,
                    (Some(_), None) => r == Err::<(JobId, ChildReservation), _>(
                        SystemCallError::ReachLimit,
                    ) && final(self)@ == old(self)@.token_taken(),
                    (Some(token), Some(jid)) => {
                        let drawn = old(self)@.token_taken().jid_taken();
                        let children = old(self)@.jobs[j as int].children;
                        if children.entries.len() >= JOB_DIRECT_ENTRY_LIMIT {
                            r == Err::<(JobId, ChildReservation), _>(SystemCallError::ReachLimit)
                                && final(self)@ == drawn
                        } else if !entry_room {
                            r == Err::<(JobId, ChildReservation), _>(SystemCallError::OutOfMemory)
                                && final(self)@ == drawn
                        } else {
                            &&& r == Ok::<_, SystemCallError>(
                                (jid, ChildReservation { jid, token }),
                            )
                            &&& final(self)@ == drawn.with_children(
                                j as int,
                                children.inserted(jid, Entry::Reserved { token }),
                            )
                            &&& final(self)@.holds_child(j as int, ChildReservation { jid, token })
                        }
                    },
                },
            },
    {
        match self.collect_chain(j, room) {
            Err(error) => {
                return Err(error);
            },
            Ok(depth) => {
                if depth >= JOB_DEPTH_MAX {
                    return Err(SystemCallError::IllegalArgument);
                }
            },
        }
        match self.gate(j, room, lock_room) {
            Err(error) => {
                return Err(error);
            },
            Ok(_) => {},
        }
        let token = match self.take_token() {
            None => {
                return Err(SystemCallError::ReachLimit);
            },
            Some(token) => token,
        };
        let ghost tokened = self@;
        let jid = match self.next_jid.allocate() {
            None => {
                assert(self@.jobs =~= tokened.jobs);
                return Err(SystemCallError::ReachLimit);
            },
            Some(jid) => jid,
        };
        assert(self@.jobs =~= tokened.jobs);
        let ghost drawn = self@;
        proof {
            assert(fresh(tokened, jid)) by {
                assert forall|i: int| 0 <= i < tokened.jobs.len() implies (
                #[trigger] tokened.jobs[i]).jid != jid by {
                    assert(ids::spent(tokened.next_jid, tokened.jobs[i].jid));
                }
                assert forall|b: int, m: int|
                    0 <= b < tokened.jobs.len() && 0 <= m
                        < tokened.jobs[b].children.entries.len() implies (
                #[trigger] tokened.jobs[b].children.entries[m]).0 != jid by {
                    assert(ids::spent(tokened.next_jid, tokened.jobs[b].children.entries[m].0));
                }
            }
            let children = tokened.jobs[j as int].children;
            assert forall|k: int| 0 <= k < children.entries.len() implies (
            #[trigger] children.entries[k]).0 < jid by {
                assert(ids::spent(
                    tokened.next_jid,
                    tokened.jobs[j as int].children.entries[k].0,
                ));
            }
            ordered_table::larger_is_absent(children, jid);
            live_children(tokened, j as int);
            derives_same(tokened, j as int);
            assert forall|k: int| 0 <= k < children.entries.len() implies ids::spent(
                drawn.next_jid,
                (#[trigger] drawn.jobs[j as int].children.entries[k]).0,
            ) by {
                assert(ids::spent(
                    tokened.next_jid,
                    tokened.jobs[j as int].children.entries[k].0,
                ));
            }
            update_keeps_wf(tokened, drawn, j as int);
            assert(self.jobs[j as int]@ == drawn.jobs[j as int]);
        }
        let inserted = self.jobs[j].children.try_insert(jid, Entry::Reserved { token }, entry_room);
        match inserted {
            Err(error) => {
                assert(self@ =~= drawn);
                Err(table_insert_error(error))
            },
            Ok(_) => {
                proof {
                    let entry = Entry::Reserved { token };
                    let children = drawn.jobs[j as int].children;
                    let after = children.inserted(jid, entry);
                    ordered_table::insert_then_remove(children, jid, entry);
                    assert(self@ =~= drawn.with_children(j as int, after));
                    assert forall|k: int| 0 <= k < after.entries.len() implies ids::spent(
                        drawn.next_jid,
                        (#[trigger] after.entries[k]).0,
                    ) by {
                        ordered_table::rank_facts(children.entries, jid, 0);
                        let i = children.place(jid);
                        if k < i {
                            assert(after.entries[k] == drawn.jobs[j as int].children.entries[k]);
                        } else if k > i {
                            assert(after.entries[k] == drawn.jobs[j as int].children.entries[k - 1]);
                        }
                    }
                    live_children(drawn, j as int);
                    assert forall|i: int|
                        0 <= i < drawn.jobs.len() && !(#[trigger] drawn.jobs[i]).dead
                            && drawn.jobs[i].parent == Some(j) implies after.entry(
                        drawn.jobs[i].jid,
                    ) == Some(Entry::Live(i as u64)) by {
                        assert(tokened.jobs[i].jid != jid);
                        ordered_table::others_unchanged(
                            children,
                            jid,
                            entry,
                            drawn.jobs[i].jid,
                            Entry::Live(i as u64),
                        );
                    }
                    assert(fresh(drawn, jid)) by {
                        assert(drawn.jobs == tokened.jobs);
                    }
                    walk_counts_levels(drawn.jobs, j as int, 0, room as int);
                    derives_ops(drawn, j as int, jid, entry);
                    update_keeps_wf(drawn, self@, j as int);
                }
                Ok((jid, ChildReservation { jid, token }))
            },
        }
    }

    /// Reserves an entry for a process whose identity is drawn already, in an open
    /// job.
    pub fn reserve_member(&mut self, j: usize, pid: Pid, entry_room: bool) -> (r: Result<
        MemberReservation,
        SystemCallError,
    >)
        requires
            old(self).wf(),
            j < old(self)@.jobs.len(),
            !old(self)@.jobs[j as int].sealed,
            !old(self)@.jobs[j as int].members.has(pid),
            ids::spent(old(self)@.next_pid, pid),
        ensures
            final(self).wf(),
            match old(self)@.next_token {
                None => r == Err::<MemberReservation, _>(SystemCallError::ReachLimit)
                    && final(self)@ == old(self)@,
                Some(token) => {
                    let drawn = old(self)@.token_taken();
                    let members = old(self)@.jobs[j as int].members;
                    if members.entries.len() >= JOB_DIRECT_ENTRY_LIMIT {
                        r == Err::<MemberReservation, _>(SystemCallError::ReachLimit)
                            && final(self)@ == drawn
                    } else if !entry_room {
                        r == Err::<MemberReservation, _>(SystemCallError::OutOfMemory)
                            && final(self)@ == drawn
                    } else {
                        &&& r == Ok::<_, SystemCallError>(MemberReservation { pid, token })
                        &&& final(self)@ == drawn.with_members(
                            j as int,
                            members.inserted(pid, Entry::Reserved { token }),
                        )
                        &&& final(self)@.holds_member(j as int, MemberReservation { pid, token })
                    }
                },
            },
    {
        let token = match self.take_token() {
            None => {
                return Err(SystemCallError::ReachLimit);
            },
            Some(token) => token,
        };
        match self.insert_member(j, pid, token, entry_room) {
            Err(error) => Err(error),
            Ok(_) => Ok(MemberReservation { pid, token }),
        }
    }

    /// Puts the process in place of the reservation.
    pub fn commit_member(&mut self, j: usize, reservation: MemberReservation, process: u64)
        requires
            old(self).wf(),
            old(self)@.holds_member(j as int, reservation),
        ensures
            final(self).wf(),
            final(self)@ == old(self)@.with_members(
                j as int,
                old(self)@.jobs[j as int].members.replaced(reservation.pid, Entry::Live(process)),
            ),
            final(self)@.jobs[j as int].members.entry(reservation.pid) == Some(
                Entry::Live(process),
            ),
    {
        let ghost before = self@;
        assert(self.jobs[j as int]@ == before.jobs[j as int]);
        self.jobs[j].members.set(reservation.pid, Entry::Live(process));
        proof {
            let members = before.jobs[j as int].members;
            let after = members.replaced(reservation.pid, Entry::Live(process));
            ordered_table::replace_keeps_order(members, reservation.pid, Entry::Live(process));
            assert(self@ =~= before.with_members(j as int, after));
            assert forall|k: int| 0 <= k < after.entries.len() implies ids::spent(
                before.next_pid,
                (#[trigger] after.entries[k]).0,
            ) by {
                assert(ids::spent(before.next_pid, before.jobs[j as int].members.entries[k].0));
            }
            live_children(before, j as int);
            derives_same(before, j as int);
            update_keeps_wf(before, self@, j as int);
        }
    }

    /// Takes a member entry out.
    fn take_member(&mut self, j: usize, pid: Pid) -> (r: Entry)
        requires
            old(self).wf(),
            j < old(self)@.jobs.len(),
            old(self)@.jobs[j as int].members.has(pid),
        ensures
            final(self).wf(),
            final(self)@ == old(self)@.with_members(
                j as int,
                old(self)@.jobs[j as int].members.removed(pid),
            ),
            Some(r) == old(self)@.jobs[j as int].members.entry(pid),
    {
        let ghost before = self@;
        assert(self.jobs[j as int]@ == before.jobs[j as int]);
        let removed = self.jobs[j].members.remove(pid);
        proof {
            let members = before.jobs[j as int].members;
            let after = members.removed(pid);
            ordered_table::remove_keeps_order(members, pid);
            assert(self@ =~= before.with_members(j as int, after));
            assert forall|k: int| 0 <= k < after.entries.len() implies ids::spent(
                before.next_pid,
                (#[trigger] after.entries[k]).0,
            ) by {
                let i = members.place(pid);
                if k < i {
                    assert(after.entries[k] == before.jobs[j as int].members.entries[k]);
                } else {
                    assert(after.entries[k] == before.jobs[j as int].members.entries[k + 1]);
                }
            }
            live_children(before, j as int);
            derives_same(before, j as int);
            update_keeps_wf(before, self@, j as int);
        }
        removed
    }

    /// Gives a member reservation up.
    pub fn rollback_member(&mut self, j: usize, reservation: MemberReservation)
        requires
            old(self).wf(),
            old(self)@.holds_member(j as int, reservation),
        ensures
            final(self).wf(),
            final(self)@ == old(self)@.with_members(
                j as int,
                old(self)@.jobs[j as int].members.removed(reservation.pid),
            ),
    {
        self.take_member(j, reservation.pid);
    }

    /// Puts a new, open job in place of the reservation; its position in the tree.
    pub fn commit_child(&mut self, j: usize, reservation: ChildReservation) -> (r: usize)
        requires
            old(self).wf(),
            old(self)@.holds_child(j as int, reservation),
        ensures
            final(self).wf(),
            r == old(self)@.jobs.len(),
            final(self)@ == old(self)@.with_children(
                j as int,
                old(self)@.jobs[j as int].children.replaced(
                    reservation.jid,
                    Entry::Live(r as u64),
                ),
            ).grown(JobView::fresh(reservation.jid, old(self)@.jobs[j as int].jid, Some(j))),
    {
        let ghost before = self@;
        let position: usize = self.jobs.len();
        let key: JobId = reservation.jid;
        let entry = Entry::Live(position as u64);
        assert(self.jobs[j as int]@ == before.jobs[j as int]);
        let parent_jid: JobId = self.jobs[j].jid;
        self.jobs[j].children.set(key, entry);
        let ghost children = before.jobs[j as int].children;
        let ghost linked = self@;
        proof {
            ordered_table::replace_keeps_order(children, key, entry);
            let after = children.replaced(key, entry);
            assert(linked =~= before.with_children(j as int, after));
            ordered_table::entry_iff(children, key, Entry::Reserved { token: reservation.token });
            let m = choose|m: int|
                0 <= m < children.entries.len() && children.entries[m] == (
                    key,
                    Entry::Reserved { token: reservation.token },
                );
            assert(before.jobs[j as int].children.entries[m].1 is Reserved);
            assert forall|k: int| 0 <= k < after.entries.len() implies ids::spent(
                before.next_jid,
                (#[trigger] after.entries[k]).0,
            ) by {
                assert(ids::spent(before.next_jid, before.jobs[j as int].children.entries[k].0));
            }
            live_children(before, j as int);
            assert forall|i: int|
                0 <= i < before.jobs.len() && !(#[trigger] before.jobs[i]).dead
                    && before.jobs[i].parent == Some(j) implies after.entry(before.jobs[i].jid)
                == Some(Entry::Live(i as u64)) by {
                assert(before.jobs[i].jid != before.jobs[j as int].children.entries[m].0);
                ordered_table::others_unchanged(
                    children,
                    key,
                    entry,
                    before.jobs[i].jid,
                    Entry::Live(i as u64),
                );
            }
            derives_ops(before, j as int, key, entry);
            update_keeps_wf(before, linked, j as int);
            assert forall|i: int| 0 <= i < linked.jobs.len() implies (
            #[trigger] linked.jobs[i]).jid != key by {
                assert(before.jobs[i].jid != before.jobs[j as int].children.entries[m].0);
            }
            ordered_table::entry_iff(after, key, entry);
        }
        let job = Job::new(key, parent_jid, Some(j));
        self.jobs.push(job);
        proof {
            assert(self.jobs.len() == self@.jobs.len());
            assert(self@ =~= linked.grown(job@));
            assert(self@.jobs.drop_last() =~= linked.jobs);
            push_keeps_wf(linked, self@, j as int);
        }
        position
    }

    /// Gives a child reservation up.
    pub fn rollback_child(&mut self, j: usize, reservation: ChildReservation)
        requires
            old(self).wf(),
            old(self)@.holds_child(j as int, reservation),
        ensures
            final(self).wf(),
            final(self)@ == old(self)@.with_children(
                j as int,
                old(self)@.jobs[j as int].children.removed(reservation.jid),
            ),
    {
        let ghost before = self@;
        let key: JobId = reservation.jid;
        assert(self.jobs[j as int]@ == before.jobs[j as int]);
        self.jobs[j].children.remove(key);
        proof {
            let children = before.jobs[j as int].children;
            let gone = children.removed(key);
            ordered_table::remove_keeps_order(children, key);
            assert(self@ =~= before.with_children(j as int, gone));
            assert forall|k: int| 0 <= k < gone.entries.len() implies ids::spent(
                before.next_jid,
                (#[trigger] gone.entries[k]).0,
            ) by {
                let i = children.place(key);
                if k < i {
                    assert(gone.entries[k] == before.jobs[j as int].children.entries[k]);
                } else {
                    assert(gone.entries[k] == before.jobs[j as int].children.entries[k + 1]);
                }
            }
            ordered_table::entry_iff(children, key, Entry::Reserved { token: reservation.token });
            let m = choose|m: int|
                0 <= m < children.entries.len() && children.entries[m] == (
                    key,
                    Entry::Reserved { token: reservation.token },
                );
            assert(before.jobs[j as int].children.entries[m].1 is Reserved);
            live_children(before, j as int);
            assert forall|i: int|
                0 <= i < before.jobs.len() && !(#[trigger] before.jobs[i]).dead
                    && before.jobs[i].parent == Some(j) implies gone.entry(before.jobs[i].jid)
                == Some(Entry::Live(i as u64)) by {
                assert(before.jobs[i].jid != before.jobs[j as int].children.entries[m].0);
                ordered_table::others_unchanged(
                    children,
                    key,
                    Entry::Live(0),
                    before.jobs[i].jid,
                    Entry::Live(i as u64),
                );
            }
            derives_ops(before, j as int, key, Entry::Live(0));
            update_keeps_wf(before, self@, j as int);
        }
    }

    /// Replaces job `j` by its settled self.
    fn settle(&mut self, j: usize) -> (r: bool)
        requires
            old(self).wf(),
            j < old(self)@.jobs.len(),
        ensures
            final(self).wf(),
            r == old(self)@.jobs[j as int].ready(),
            final(self)@ == (TreeView {
                jobs: old(self)@.jobs.update(j as int, old(self)@.jobs[j as int].settled()),
                ..old(self)@
            }),
    {
        let ghost before = self@;
        assert(self.jobs[j as int]@ == before.jobs[j as int]);
        let completed: bool = self.jobs[j].complete_if_ready();
        proof {
            assert(self@.jobs =~= before.jobs.update(j as int, before.jobs[j as int].settled()));
            live_children(before, j as int);
            derives_same(before, j as int);
            assert(forall|k: int|
                0 <= k < before.jobs[j as int].members.entries.len() ==> ids::spent(
                    before.next_pid,
                    (#[trigger] before.jobs[j as int].members.entries[k]).0,
                ));
            update_keeps_wf(before, self@, j as int);
        }
        completed
    }

    /// Takes a process that is gone out of its job. If that completes the job, the
    /// cursor that carries the completion up.
    pub fn remove_member(&mut self, j: usize, pid: Pid) -> (r: Option<CompletionCursor>)
        requires
            old(self).wf(),
            j < old(self)@.jobs.len(),
            old(self)@.jobs[j as int].members.entry(pid) matches Some(Entry::Live(_)),
        ensures
            final(self).wf(),
            ({
                let rest = old(self)@.jobs[j as int].without_member(pid);
                &&& final(self)@ == (TreeView {
                    jobs: old(self)@.jobs.update(j as int, rest.settled()),
                    ..old(self)@
                })
                &&& r == if rest.ready() {
                    Some(CompletionCursor { child: j, published: false })
                } else {
                    None
                }
            }),
            r matches Some(cursor) ==> cursor.on(final(self)@),
    {
        let ghost before = self@;
        proof {
            // A job with a member is not dead, hence an entry of its parent.
            assert(before.jobs[j as int].members.entries.len() > 0);
            assert(attached(before.jobs, j as int));
        }
        self.take_member(j, pid);
        let completed: bool = self.settle(j);
        assert(self@.jobs =~= before.jobs.update(
            j as int,
            (JobView {
                members: before.jobs[j as int].members.removed(pid),
                ..before.jobs[j as int]
            }).settled(),
        ));
        if completed {
            Some(CompletionCursor { child: j, published: false })
        } else {
            None
        }
    }

    /// Carries a completion one step up.
    pub fn advance(&mut self, cursor: &mut CompletionCursor) -> (r: CursorStep)
        requires
            old(self).wf(),
            old(cursor).on(old(self)@),
        ensures
            final(self).wf(),
            ({
                let c = old(cursor).child as int;
                let job = old(self)@.jobs[c];
                if !old(cursor).published {
                    &&& r == CursorStep::Published(c as usize)
                    &&& *final(cursor) == (CompletionCursor { published: true, ..*old(cursor) })
                    &&& final(self)@ == (TreeView {
                        jobs: old(self)@.jobs.update(c, job.published()),
                        ..old(self)@
                    })
                } else {
                    match job.parent {
                        None => r is Done && final(self)@ == old(self)@ && *final(cursor) == *old(
                            cursor,
                        ),
                        Some(p) => {
                            let rest = old(self)@.jobs[p as int].without_child(job.jid);
                            &&& final(self)@ == (TreeView {
                                jobs: old(self)@.jobs.update(p as int, rest.settled()),
                                ..old(self)@
                            })
                            &&& p < c
                            &&& if rest.ready() {
                                r is Climbed && *final(cursor) == (CompletionCursor {
                                    child: p,
                                    published: false,
                                })
                            } else {
                                r is Done && *final(cursor) == *old(cursor)
                            }
                        },
                    }
                }
            }),
            !(r is Done) ==> final(cursor).on(final(self)@),
    {
        let ghost before = self@;
        let child: usize = cursor.child;
        assert(self.jobs[child as int]@ == before.jobs[child as int]);
        if !cursor.published {
            self.jobs[child].wait.update(signals::NONE, signals::CLOSED);
            cursor.published = true;
            proof {
                publish_shows(before.jobs[child as int]);
                assert(self@.jobs =~= before.jobs.update(
                    child as int,
                    before.jobs[child as int].published(),
                ));
                live_children(before, child as int);
                derives_same(before, child as int);
                update_keeps_wf(before, self@, child as int);
            }
            return CursorStep::Published(child);
        }
        let parent = match self.jobs[child].parent {
            None => {
                return CursorStep::Done;
            },
            Some(parent) => parent,
        };
        let key: JobId = self.jobs[child].jid;
        let ghost children = before.jobs[parent as int].children;
        proof {
            assert(self.jobs[parent as int]@ == before.jobs[parent as int]);
            assert(children.has(key));
            // A job with a child is not dead, hence an entry of its own parent.
            assert(children.entries.len() > 0);
            assert(!before.jobs[parent as int].dead);
            assert(attached(before.jobs, parent as int));
        }
        self.jobs[parent].children.remove(key);
        let ghost left = self@;
        proof {
            let gone = children.removed(key);
            ordered_table::remove_keeps_order(children, key);
            assert(left =~= before.with_children(parent as int, gone));
            assert forall|k: int| 0 <= k < gone.entries.len() implies ids::spent(
                before.next_jid,
                (#[trigger] gone.entries[k]).0,
            ) by {
                let i = children.place(key);
                if k < i {
                    assert(gone.entries[k] == before.jobs[parent as int].children.entries[k]);
                } else {
                    assert(gone.entries[k] == before.jobs[parent as int].children.entries[k + 1]);
                }
            }
            live_children(before, parent as int);
            assert forall|i: int|
                0 <= i < before.jobs.len() && !(#[trigger] before.jobs[i]).dead
                    && before.jobs[i].parent == Some(parent) implies gone.entry(before.jobs[i].jid)
                == Some(Entry::Live(i as u64)) by {
                assert(before.jobs[i].jid != before.jobs[child as int].jid) by {
                    if i < child {
                    } else if i > child {
                    }
                }
                ordered_table::others_unchanged(
                    children,
                    key,
                    Entry::Live(0),
                    before.jobs[i].jid,
                    Entry::Live(i as u64),
                );
            }
            derives_ops(before, parent as int, key, Entry::Live(0));
            update_keeps_wf(before, left, parent as int);
        }
        let completed: bool = self.settle(parent);
        proof {
            let rest = before.jobs[parent as int].without_child(key);
            assert(self@.jobs =~= before.jobs.update(parent as int, rest.settled()));
            if let Some(q) = before.jobs[parent as int].parent {
                assert(q < parent);
            }
        }
        if !completed {
            return CursorStep::Done;
        }
        cursor.child = parent;
        cursor.published = false;
        CursorStep::Climbed
    }

    /// Carries a completion all the way up; the jobs that told their observers.
    pub fn finish_completion(&mut self, child: usize) -> (r: Vec<usize>)
        requires
            old(self).wf(),
            (CompletionCursor { child, published: false }).on(old(self)@),
        ensures
            final(self).wf(),
            final(self)@ == (TreeView {
                jobs: closing(old(self)@.jobs, child as int).0,
                ..old(self)@
            }),
            r@ == closing(old(self)@.jobs, child as int).1,
    {
        let ghost before = self@;
        let mut told: Vec<usize> = Vec::new();
        let mut cursor = CompletionCursor { child, published: false };
        loop
            invariant_except_break
                cursor.on(self@),
                cursor.published ==> closing(before.jobs, child as int) == (
                    climbing(self@.jobs, cursor.child as int).0,
                    told@ + climbing(self@.jobs, cursor.child as int).1,
                ),
                !cursor.published ==> closing(before.jobs, child as int) == (
                    closing(self@.jobs, cursor.child as int).0,
                    told@ + closing(self@.jobs, cursor.child as int).1,
                ),
            invariant
                self.wf(),
                self@ == (TreeView { jobs: self@.jobs, ..before }),
            ensures
                closing(before.jobs, child as int) == (self@.jobs, told@),
            decreases cursor.child, (if cursor.published { 0int } else { 1int }),
        {
            let ghost here = self@.jobs;
            let ghost c = cursor.child as int;
            let ghost sofar = told@;
            match self.advance(&mut cursor) {
                CursorStep::Published(job) => {
                    told.push(job);
                    assert(sofar + closing(here, c).1 =~= told@ + climbing(self@.jobs, c).1);
                },
                CursorStep::Climbed => {},
                CursorStep::Done => {
                    assert(sofar + climbing(here, c).1 =~= sofar);
                    break ;
                },
            }
        }
        told
    }

    /// Seals job `j`: creation in it and below it is over. Sealing again, or sealing
    /// a dead job, changes nothing. If the job is complete with that, its completion
    /// goes up at once; the jobs that told their observers.
    pub fn seal(&mut self, j: usize) -> (r: Vec<usize>)
        requires
            old(self).wf(),
            j < old(self)@.jobs.len(),
        ensures
            final(self).wf(),
            final(self)@ == old(self)@.sealing(j as int).0,
            r@ == old(self)@.sealing(j as int).1,
    {
        let ghost before = self@;
        assert(self.jobs[j as int]@ == before.jobs[j as int]);
        if self.jobs[j].dead {
            return Vec::new();
        }
        assert(attached(before.jobs, j as int));
        self.jobs[j].sealed = true;
        let ghost sealed = self@;
        proof {
            assert(sealed.jobs =~= before.jobs.update(
                j as int,
                JobView { sealed: true, ..before.jobs[j as int] },
            ));
            live_children(before, j as int);
            derives_same(before, j as int);
            update_keeps_wf(before, sealed, j as int);
        }
        let completed: bool = self.settle(j);
        assert(self@.jobs =~= before.jobs.update(
            j as int,
            (JobView { sealed: true, ..before.jobs[j as int] }).settled(),
        ));
        if completed {
            self.finish_completion(j)
        } else {
            Vec::new()
        }
    }
}

/// No more of the first `n` entries are visible than there are.
proof fn live_count_bound(entries: Seq<(u64, Entry)>, n: int)
    requires
        0 <= n,
    ensures
        ordered_table::live_count(entries, n) <= n,
    decreases n,
{
    if n > 0 {
        live_count_bound(entries, n - 1);
    }
}

impl JobTree {
    /// The levels that job `j` shows.
    pub fn signals(&self, j: usize) -> (r: ObjectSignals)
        requires
            self.wf(),
            j < self@.jobs.len(),
        ensures
            r == self@.jobs[j as int].wait.signals,
    {
        assert(self.jobs[j as int]@ == self@.jobs[j as int]);
        self.jobs[j].wait.signals()
    }

    /// The observers of job `j`. Whatever is done with them, the tree stays in order as long
    /// as the job's levels are left alone.
    pub fn observers(&mut self, j: usize) -> (r: &mut ObjectWaitState)
        requires
            old(self).wf(),
            j < old(self)@.jobs.len(),
        ensures
            r.wf(),
            r@ == old(self)@.jobs[j as int].wait,
            final(self)@ == old(self)@.with_observers(j as int, final(r)@),
            final(r).wf() && final(r)@.same_levels(old(self)@.jobs[j as int].wait)
                ==> final(self).wf(),
    {
        let ghost before = self@;
        assert(self.jobs[j as int]@ == before.jobs[j as int]);
        let ghost jobs = self.jobs@;
        proof {
            let tree = *self;
            assert forall|after: JobTree, wait: ObjectWaitState|
                #![trigger after.wf(), wait.wf()]
                wait.wf() && wait@.same_levels(before.jobs[j as int].wait) && after == (JobTree {
                    jobs: after.jobs,
                    ..tree
                }) && after.jobs@ == jobs.update(
                    j as int,
                    Job { wait, ..jobs[j as int] },
                ) implies after.wf() by {
                assert(after@ =~= before.with_observers(j as int, wait@));
                live_children(before, j as int);
                derives_same(before, j as int);
                update_keeps_wf(before, after@, j as int);
                assert forall|k: int| 0 <= k < after.jobs.len() implies (
                #[trigger] after.jobs[k]).wf() by {
                    assert(tree.jobs[k].wf());
                }
            }
        }
        &mut self.jobs[j].wait
    }

    /// Marks a dead job that left its parent as gone.
    pub fn release(&mut self, j: usize)
        requires
            old(self).wf(),
            j < old(self)@.jobs.len(),
            old(self)@.jobs[j as int].dead,
            !attached(old(self)@.jobs, j as int),
        ensures
            final(self).wf(),
            final(self)@ == (TreeView {
                jobs: old(self)@.jobs.update(
                    j as int,
                    JobView { released: true, ..old(self)@.jobs[j as int] },
                ),
                ..old(self)@
            }),
    {
        let ghost before = self@;
        assert(self.jobs[j as int]@ == before.jobs[j as int]);
        self.jobs[j].released = true;
        proof {
            assert(self@.jobs =~= before.jobs.update(
                j as int,
                JobView { released: true, ..before.jobs[j as int] },
            ));
            live_children(before, j as int);
            derives_same(before, j as int);
            update_keeps_wf(before, self@, j as int);
        }
    }

    /// The visible entry under `id` in job `j`; a reservation is invisible.
    fn lookup(&self, j: usize, kind: JobMemberKind, id: u64) -> (r: Option<u64>)
        requires
            self.wf(),
            j < self@.jobs.len(),
        ensures
            r == self@.jobs[j as int].visible(kind, id),
    {
        assert(self.jobs[j as int]@ == self@.jobs[j as int]);
        let entry = match kind {
            JobMemberKind::ChildJobs => self.jobs[j].children.get(id),
            JobMemberKind::MemberProcesses => self.jobs[j].members.get(id),
        };
        match entry {
            Some(Entry::Live(object)) => Some(object),
            _ => None,
        }
    }

    /// The direct member process with identity `pid`.
    pub fn member_process(&self, j: usize, pid: Pid) -> (r: Option<u64>)
        requires
            self.wf(),
            j < self@.jobs.len(),
        ensures
            r == self@.jobs[j as int].visible(JobMemberKind::MemberProcesses, pid),
    {
        self.lookup(j, JobMemberKind::MemberProcesses, pid)
    }

    /// The direct child job with identity `jid`.
    pub fn child_job(&self, j: usize, jid: JobId) -> (r: Option<u64>)
        requires
            self.wf(),
            j < self@.jobs.len(),
        ensures
            r == self@.jobs[j as int].visible(JobMemberKind::ChildJobs, jid),
    {
        self.lookup(j, JobMemberKind::ChildJobs, jid)
    }

    /// What a query of job `j` tells. A dead job counts nothing.
    pub fn snapshot(&self, j: usize) -> (r: JobSnapshot)
        requires
            self.wf(),
            j < self@.jobs.len(),
        ensures
            tells(self@.jobs[j as int], r),
    {
        let job = &self.jobs[j];
        proof {
            assert(job@ == self@.jobs[j as int]);
            live_count_bound(job@.members.entries, job@.members.entries.len() as int);
            live_count_bound(job@.children.entries, job@.children.entries.len() as int);
        }
        let state = if job.dead {
            JobState::Dead
        } else if job.sealed {
            JobState::Sealed
        } else {
            JobState::Open
        };
        JobSnapshot {
            jid: job.jid,
            parent_jid: job.parent_jid,
            state,
            live_processes: job.members.count_live() as u32,
            live_children: job.children.count_live() as u32,
        }
    }

    /// Starts a process of job `j`, if nothing above it is sealed. Checking the seals
    /// and starting the process are one step.
    pub fn start_commit_gate(
        &self,
        j: usize,
        room: usize,
        lock_room: bool,
        lifecycle: &mut Lifecycle,
        expected: usize,
        out: &mut Vec<u64>,
    ) -> (r: Result<(), SystemCallError>)
        requires
            self.wf(),
            j < self@.jobs.len(),
            old(lifecycle).wf(),
            self@.gate(j as int, room as int, lock_room) is Ok && old(lifecycle)@.state is Building
                && old(lifecycle)@.members.len() > 0 && old(lifecycle)@.members.len() == expected
                ==> old(lifecycle)@.building_ops > 0 && old(lifecycle)@.execution_sequence
                < u64::MAX,
        ensures
            final(lifecycle).wf(),
            r == match self@.gate(j as int, room as int, lock_room) {
                Err(error) => Err::<(), _>(error),
                Ok(_) => if !(old(lifecycle)@.state is Building) || old(lifecycle)@.members.len()
                    == 0 {
                    Err(SystemCallError::ObjectClosed)
                } else if old(lifecycle)@.members.len() != expected {
                    Err(SystemCallError::ObjectBusy)
                } else {
                    Ok(())
                },
            },
            r is Err ==> final(lifecycle)@ == old(lifecycle)@ && final(out)@ == old(out)@,
            r is Ok ==> final(lifecycle)@ == old(lifecycle)@.started(),
            r is Ok ==> final(out)@ == old(out)@ + crate::lifecycle::staged_threads(
                old(lifecycle)@.members,
            ),
    {
        match self.gate(j, room, lock_room) {
            Err(error) => {
                return Err(error);
            },
            Ok(_) => {},
        }
        match lifecycle.begin_running(expected, out) {
            Ok(_) => Ok(()),
            Err(BeginFault::Closed) => Err(SystemCallError::ObjectClosed),
            Err(BeginFault::StaleCount) => Err(SystemCallError::ObjectBusy),
        }
    }

    /// Creates a job in job `j`, the one that `found` names (a lookup that demands
    /// the right to create). `made` is what building the job's object gave, and
    /// `installed` what publishing its handle gave. On every failure the
    /// reservation is given up again; drawn tokens and identities stay spent.
    pub fn create(
        &mut self,
        j: usize,
        found: Result<ProcessHandleEntry, TableError>,
        rights: Rights,
        room: usize,
        lock_room: bool,
        entry_room: bool,
        made: Result<(), SystemCallError>,
        installed: Result<(), SystemCallError>,
    ) -> (r: Result<usize, SystemCallError>)
        requires
            old(self).wf(),
            j < old(self)@.jobs.len(),
        ensures
            final(self).wf(),
            ({
                let gate = old(self)@.child_gate(j as int, room as int, lock_room);
                let drawn = old(self)@.child_drawn(j as int, room as int, lock_room);
                match handle::resolve_result(found, ObjectKind::Job, HandleRole::JobControl) {
                    Err(error) => r == Err::<usize, _>(error) && final(self)@ == old(self)@,
                    Ok(entry) => if !rights::subset(rights, entry.rights) {
                        r == Err::<usize, _>(SystemCallError::RightsDenied) && final(self)@
                            == old(self)@
                    } else if gate is Err {
                        r == Err::<usize, _>(gate->Err_0) && final(self)@ == drawn
                    } else if old(self)@.next_token is None || old(self)@.next_jid is None
                        || old(self)@.jobs[j as int].children.entries.len()
                        >= JOB_DIRECT_ENTRY_LIMIT {
                        r == Err::<usize, _>(SystemCallError::ReachLimit) && final(self)@ == drawn
                    } else if !entry_room {
                        r == Err::<usize, _>(SystemCallError::OutOfMemory) && final(self)@ == drawn
                    } else if made is Err {
                        r == Err::<usize, _>(made->Err_0) && final(self)@ == drawn
                    } else if !handle::may_enter(ObjectKind::Job, HandleRole::JobControl, rights) {
                        r == Err::<usize, _>(SystemCallError::RightsDenied) && final(self)@ == drawn
                    } else if installed is Err {
                        r == Err::<usize, _>(installed->Err_0) && final(self)@ == drawn
                    } else {
                        r == Ok::<_, SystemCallError>(old(self)@.jobs.len() as usize)
                            && final(self)@ == drawn.with_child(j as int, old(self)@.next_jid->0)
                    },
                }
            }),
    {
        let ghost before = self@;
        let source = match handle::resolve(found, ObjectKind::Job, HandleRole::JobControl) {
            Err(error) => {
                return Err(error);
            },
            Ok(entry) => entry,
        };
        if !rights::is_subset_of(rights, source.rights) {
            return Err(SystemCallError::RightsDenied);
        }
        let reservation = match self.gate_reserve_child(j, room, lock_room, entry_room) {
            Err(error) => {
                return Err(error);
            },
            Ok((_, reservation)) => reservation,
        };
        let ghost reserved = self@;
        proof {
            let children = before.jobs[j as int].children;
            let jid = before.next_jid->0;
            let entry = Entry::Reserved { token: before.next_token->0 };
            assert(!children.has(jid)) by {
                assert forall|k: int| 0 <= k < children.entries.len() implies (
                #[trigger] children.entries[k]).0 < jid by {
                    assert(ids::spent(
                        before.next_jid,
                        before.jobs[j as int].children.entries[k].0,
                    ));
                }
                ordered_table::larger_is_absent(children, jid);
            }
            ordered_table::insert_then_remove(children, jid, entry);
            ordered_table::insert_then_replace(
                children,
                jid,
                entry,
                Entry::Live(before.jobs.len() as u64),
            );
            assert(reserved.with_children(j as int, reserved.jobs[j as int].children.removed(jid))
                =~= before.token_taken().jid_taken()) by {
                assert(reserved.with_children(
                    j as int,
                    reserved.jobs[j as int].children.removed(jid),
                ).jobs =~= before.jobs);
            }
        }
        match made {
            Err(error) => {
                self.rollback_child(j, reservation);
                return Err(error);
            },
            Ok(_) => {},
        }
        match handle::entry(0, ObjectKind::Job, HandleRole::JobControl, rights) {
            Err(error) => {
                self.rollback_child(j, reservation);
                return Err(handle::map_error(error));
            },
            Ok(_) => {},
        }
        match installed {
            Err(error) => {
                self.rollback_child(j, reservation);
                return Err(error);
            },
            Ok(_) => {},
        }
        let position: usize = self.commit_child(j, reservation);
        assert(self@.jobs =~= before.token_taken().jid_taken().with_child(
            j as int,
            before.next_jid->0,
        ).jobs);
        Ok(position)
    }

    /// One page of the direct entries of job `j`, the one that `found` names (a lookup
    /// that demands the right to read), in ascending order after `cursor`, at most
    /// `buf_len` and at most `max` of them. `writable` is whether the caller's
    /// buffers can be written; nothing is scanned before that is known.
    pub fn enumerate(
        &self,
        j: usize,
        found: Result<ProcessHandleEntry, TableError>,
        kind_raw: u64,
        cursor: u64,
        buf_len: usize,
        max: usize,
        writable: Result<(), SystemCallError>,
    ) -> (r: Result<JobPage, SystemCallError>)
        requires
            self.wf(),
            j < self@.jobs.len(),
        ensures
            ({
                let resolved = handle::resolve_result(
                    found,
                    ObjectKind::Job,
                    HandleRole::JobControl,
                );
                match kind_of(kind_raw) {
                    Err(error) => r == Err::<JobPage, _>(error),
                    Ok(kind) => if buf_len == 0 {
                        r == Err::<JobPage, _>(SystemCallError::IllegalArgument)
                    } else if resolved is Err {
                        r == Err::<JobPage, _>(resolved->Err_0)
                    } else if writable is Err {
                        r == Err::<JobPage, _>(writable->Err_0)
                    } else {
                        let table = self@.jobs[j as int].table(kind);
                        let cap = if buf_len < max {
                            buf_len as int
                        } else {
                            max as int
                        };
                        &&& r is Ok
                        &&& r->Ok_0.ids@ == page_ids(table, cursor, cap)
                        &&& r->Ok_0.ids@.len() <= cap
                        &&& r->Ok_0.next_cursor == page_cursor(table, cursor, cap)
                        &&& r->Ok_0.more == page_more(table, cursor, cap)
                    },
                }
            }),
    {
        let kind = match parse_member_kind(kind_raw) {
            Err(error) => {
                return Err(error);
            },
            Ok(kind) => kind,
        };
        if buf_len == 0 {
            return Err(SystemCallError::IllegalArgument);
        }
        match handle::resolve(found, ObjectKind::Job, HandleRole::JobControl) {
            Err(error) => {
                return Err(error);
            },
            Ok(_) => {},
        }
        match writable {
            Err(error) => {
                return Err(error);
            },
            Ok(_) => {},
        }
        let cap: usize = if buf_len < max {
            buf_len
        } else {
            max
        };
        assert(self.jobs[j as int]@ == self@.jobs[j as int]);
        let (ids, more) = match kind {
            JobMemberKind::ChildJobs => self.jobs[j].children.scan_visible(cursor, cap),
            JobMemberKind::MemberProcesses => self.jobs[j].members.scan_visible(cursor, cap),
        };
        let next_cursor: u64 = if ids.len() > 0 {
            ids[ids.len() - 1]
        } else {
            cursor
        };
        Ok(JobPage { ids, next_cursor, more })
    }

    /// Makes a handle for a direct entry of job `j`, the one that `found` names (a
    /// lookup that demands the right to manage). `revived` is the object that stands
    /// for the process under `id`, or why none could be had. The handle gets no right
    /// that the caller's handle lacks.
    pub fn derive(
        &self,
        j: usize,
        found: Result<ProcessHandleEntry, TableError>,
        kind_raw: u64,
        id: u64,
        rights: Rights,
        revived: Result<u64, SystemCallError>,
    ) -> (r: Result<ProcessHandleEntry, SystemCallError>)
        requires
            self.wf(),
            j < self@.jobs.len(),
        ensures
            ({
                let resolved = handle::resolve_result(
                    found,
                    ObjectKind::Job,
                    HandleRole::JobControl,
                );
                let refused = |error: SystemCallError| Err::<ProcessHandleEntry, _>(error);
                match kind_of(kind_raw) {
                    Err(error) => r == refused(error),
                    Ok(kind) => if resolved is Err {
                        r == refused(resolved->Err_0)
                    } else if !rights::known(rights) || !rights::subset(
                        rights,
                        resolved->Ok_0.rights,
                    ) {
                        r == refused(SystemCallError::RightsDenied)
                    } else if self@.jobs[j as int].visible(kind, id) is None {
                        r == refused(SystemCallError::ObjectNotFound)
                    } else {
                        let entered = match kind {
                            JobMemberKind::ChildJobs => Ok(
                                handle::entry_result(
                                    self@.jobs[j as int].visible(kind, id)->0,
                                    ObjectKind::Job,
                                    HandleRole::JobControl,
                                    rights,
                                ),
                            ),
                            JobMemberKind::MemberProcesses => match revived {
                                Err(error) => Err(error),
                                Ok(shell) => Ok(
                                    handle::entry_result(
                                        shell,
                                        ObjectKind::ProcessControl,
                                        HandleRole::ProcessControl,
                                        rights,
                                    ),
                                ),
                            },
                        };
                        match entered {
                            Err(error) => r == refused(error),
                            Ok(Err(error)) => r == refused(handle::reported(error)),
                            Ok(Ok(entry)) => r == Ok::<_, SystemCallError>(entry),
                        }
                    },
                }
            }),
            r matches Ok(entry) ==> entry.rights == rights && rights::subset(
                rights,
                found->Ok_0.rights,
            ),
    {
        let kind = match parse_member_kind(kind_raw) {
            Err(error) => {
                return Err(error);
            },
            Ok(kind) => kind,
        };
        let source = match handle::resolve(found, ObjectKind::Job, HandleRole::JobControl) {
            Err(error) => {
                return Err(error);
            },
            Ok(entry) => entry,
        };
        if !rights::is_known(rights) || !rights::is_subset_of(rights, source.rights) {
            return Err(SystemCallError::RightsDenied);
        }
        let object = match self.lookup(j, kind, id) {
            None => {
                return Err(SystemCallError::ObjectNotFound);
            },
            Some(object) => object,
        };
        let entered = match kind {
            JobMemberKind::ChildJobs => handle::entry(
                object,
                ObjectKind::Job,
                HandleRole::JobControl,
                rights,
            ),
            JobMemberKind::MemberProcesses => match revived {
                Err(error) => {
                    return Err(error);
                },
                Ok(shell) => handle::entry(
                    shell,
                    ObjectKind::ProcessControl,
                    HandleRole::ProcessControl,
                    rights,
                ),
            },
        };
        match entered {
            Err(error) => Err(handle::map_error(error)),
            Ok(entry) => Ok(entry),
        }
    }
}

/// Job `a` is job `j` or one of its ancestors.
pub open spec fn above(jobs: Seq<JobView>, a: int, j: int) -> bool
    decreases j,
{
    a == j || (jobs[j].parent matches Some(p) && 0 <= p < j && above(jobs, a, p as int))
}

/// Tells a caller of job `j`, the one that `found` names (a lookup that demands the right to
/// read). `output` says whether the answer can be written where the caller wants it.
pub fn query(
    tree: &JobTree,
    j: usize,
    found: Result<ProcessHandleEntry, TableError>,
    output: Result<(), SystemCallError>,
) -> (r: Result<JobSnapshot, SystemCallError>)
    requires
        tree.wf(),
        j < tree@.jobs.len(),
    ensures
        match handle::resolve_result(found, ObjectKind::Job, HandleRole::JobControl) {
            Err(error) => r == Err::<JobSnapshot, _>(error),
            Ok(_) => match output {
                Err(error) => r == Err::<JobSnapshot, _>(error),
                Ok(_) => r matches Ok(snapshot) && tells(tree@.jobs[j as int], snapshot),
            },
        },
{
    match handle::resolve(found, ObjectKind::Job, HandleRole::JobControl) {
        Err(error) => {
            return Err(error);
        },
        Ok(_) => {},
    }
    let snapshot = tree.snapshot(j);
    match output {
        Err(error) => Err(error),
        Ok(_) => Ok(snapshot),
    }
}

/// Seals job `j`, the one that `found` names (a lookup that demands the right to manage); the
/// jobs that told their observers.
pub fn seal(tree: &mut JobTree, j: usize, found: Result<ProcessHandleEntry, TableError>) -> (r:
    Result<Vec<usize>, SystemCallError>)
    requires
        old(tree).wf(),
        j < old(tree)@.jobs.len(),
    ensures
        final(tree).wf(),
        match handle::resolve_result(found, ObjectKind::Job, HandleRole::JobControl) {
            Err(error) => r == Err::<Vec<usize>, _>(error) && final(tree)@ == old(tree)@,
            Ok(_) => {
                &&& r is Ok
                &&& r->Ok_0@ == old(tree)@.sealing(j as int).1
                &&& final(tree)@ == old(tree)@.sealing(j as int).0
            },
        },
{
    match handle::resolve(found, ObjectKind::Job, HandleRole::JobControl) {
        Err(error) => Err(error),
        Ok(_) => Ok(tree.seal(j)),
    }
}

/// Sealing a job closes creation and starting in it and everywhere below it: no gate
/// there opens.
pub proof fn seal_closes_the_subtree(t: TreeView, a: int, j: int, room: int, lock_room: bool)
    requires
        above(t.jobs, a, j),
        t.jobs[a].sealed,
    ensures
        !(t.gate(j, room, lock_room) is Ok),
        !(t.child_gate(j, room, lock_room) is Ok),
{
    sealed_from_above(t.jobs, a, j);
}

/// What a completion leaves alone in a job that it passes: all but the children that
/// leave it, its death, and what its observers are told.
pub open spec fn passed(before: JobView, after: JobView) -> bool {
    &&& after.jid == before.jid
    &&& after.parent_jid == before.parent_jid
    &&& after.parent == before.parent
    &&& after.members == before.members
    &&& after.sealed == before.sealed
    &&& after.released == before.released
    &&& before.dead ==> after.dead
    &&& after.dead && !before.dead ==> after.sealed && after.wait.signals == signals::CLOSED
}

/// A completion at job `c` keeps the number of jobs, touches none after `c`, tells
/// the observers of `c`, and only passes the jobs before it.
pub proof fn completion_passes(jobs: Seq<JobView>, c: int)
    requires
        0 <= c < jobs.len(),
        forall|i: int|
            0 <= i < jobs.len() ==> (#[trigger] jobs[i]).wait.signals == signals::NONE
                || jobs[i].wait.signals == signals::CLOSED,
    ensures
        ({
            let after = closing(jobs, c).0;
            &&& after.len() == jobs.len()
            &&& after[c] == jobs[c].published()
            &&& forall|i: int| c < i < jobs.len() ==> #[trigger] after[i] == jobs[i]
            &&& forall|i: int| 0 <= i < c ==> passed(jobs[i], #[trigger] after[i])
        }),
    decreases c,
{
    publish_shows(jobs[c]);
    let told = jobs.update(c, jobs[c].published());
    let after = closing(jobs, c).0;
    if let Some(p) = jobs[c].parent {
        if p < c {
            let rest = told[p as int].without_child(told[c].jid);
            let next = told.update(p as int, rest.settled());
            if rest.ready() {
                completion_passes(next, p as int);
                publish_shows(next[p as int]);
                assert(after == closing(next, p as int).0);
                assert forall|i: int| 0 <= i < c implies passed(jobs[i], #[trigger] after[i]) by {
                    if i < p {
                        assert(passed(next[i], after[i]));
                    }
                }
            } else {
                assert(after == next);
            }
        }
    }
}

/// What sealing a job does, as a whole. The job is sealed for good and holds what it
/// held; it is dead exactly if it holds nothing, and then its observers were told the
/// terminal level. No job is added or lost, nothing is unsealed, and every job that
/// died on the way up shows the terminal level. Every gate at the job and below it is
/// closed from then on, and says so where memory does not run out, but for new jobs where
/// the tree is as deep as it may be. Sealing again changes nothing.
pub proof fn sealing_is_final(t: TreeView, j: int)
    requires
        tree_wf(t),
        0 <= j < t.jobs.len(),
    ensures
        ({
            let after = t.sealing(j).0;
            let job = after.jobs[j];
            &&& after.jobs.len() == t.jobs.len()
            &&& after.next_jid == t.next_jid && after.next_pid == t.next_pid && after.next_token
                == t.next_token
            &&& job.sealed
            &&& job.members == t.jobs[j].members && job.children == t.jobs[j].children
            &&& job.dead <==> job.members.entries.len() == 0 && job.children.entries.len() == 0
            &&& job.dead && !t.jobs[j].dead ==> job.wait.signals == signals::CLOSED
            &&& forall|i: int|
                0 <= i < t.jobs.len() && i != j ==> passed(t.jobs[i], #[trigger] after.jobs[i])
            &&& after.sealing(j) == (after, Seq::<usize>::empty())
        }),
        forall|i: int, room: int, lock_room: bool|
            above(t.sealing(j).0.jobs, j, i) ==> {
                let after = t.sealing(j).0;
                let closed = Err::<(), _>(SystemCallError::ObjectClosed);
                &&& #[trigger] t.sealing(j).0.gate(i, room, lock_room) is Err
                &&& after.child_gate(i, room, lock_room) is Err
                &&& 0 <= i < t.jobs.len() && room >= JOB_DEPTH_MAX && lock_room ==> {
                    &&& after.gate(i, room, lock_room) == closed
                    &&& depth(t.jobs, i) < JOB_DEPTH_MAX ==> after.child_gate(i, room, lock_room)
                        == closed
                }
            },
{
    let sealed = JobView { sealed: true, ..t.jobs[j] };
    let jobs = t.jobs.update(j, sealed.settled());
    let after = t.sealing(j).0;
    assert forall|i: int| 0 <= i < jobs.len() implies (#[trigger] jobs[i]).wait.signals
        == signals::NONE || jobs[i].wait.signals == signals::CLOSED by {
        assert(t.jobs[i].wf());
    }
    assert(t.jobs[j].wf());
    if !t.jobs[j].dead && sealed.ready() {
        completion_passes(jobs, j);
        publish_shows(jobs[j]);
        assert forall|i: int| 0 <= i < t.jobs.len() && i != j implies passed(
            t.jobs[i],
            #[trigger] after.jobs[i],
        ) by {
            assert(jobs[i] == t.jobs[i]);
        }
    }
    if !after.jobs[j].dead {
        assert(after.jobs.update(j, after.jobs[j]) =~= after.jobs);
        assert(after.sealing(j).0.jobs =~= after.jobs);
    }
    assert forall|i: int| 0 <= i < t.jobs.len() implies (#[trigger] after.jobs[i]).parent
        == t.jobs[i].parent && after.jobs[i].released == t.jobs[i].released by {
        if i != j {
            assert(passed(t.jobs[i], after.jobs[i]));
        }
    }
    assert forall|i: int, room: int, lock_room: bool| above(after.jobs, j, i) implies {
        let closed = Err::<(), _>(SystemCallError::ObjectClosed);
        &&& #[trigger] after.gate(i, room, lock_room) is Err
        &&& after.child_gate(i, room, lock_room) is Err
        &&& 0 <= i < t.jobs.len() && room >= JOB_DEPTH_MAX && lock_room ==> {
            &&& after.gate(i, room, lock_room) == closed
            &&& depth(t.jobs, i) < JOB_DEPTH_MAX ==> after.child_gate(i, room, lock_room) == closed
        }
    } by {
        seal_closes_the_subtree(after, j, i, room, lock_room);
        sealed_from_above(after.jobs, j, i);
        if 0 <= i < t.jobs.len() && room >= JOB_DEPTH_MAX {
            assert(depth(t.jobs, i) <= JOB_DEPTH_MAX);
            walk_reaches_the_root(t, i, 0, room);
            same_walk(t.jobs, after.jobs, i, 0, room);
        }
    }
}

proof fn sealed_from_above(jobs: Seq<JobView>, a: int, j: int)
    requires
        above(jobs, a, j),
        jobs[a].sealed,
    ensures
        sealed_above(jobs, j),
    decreases j,
{
    if a != j {
        sealed_from_above(jobs, a, jobs[j].parent->0 as int);
    }
}

/// Where memory does not run out, a job takes new processes exactly if neither it nor an
/// ancestor is sealed or gone, and refuses them as closed else. The same decides on new
/// jobs, but where the tree is as deep as it may be: there none is taken, and the depth is
/// given as the reason unless an ancestor is gone.
pub proof fn gates_follow_the_seals(t: TreeView, j: int, room: int)
    requires
        tree_wf(t),
        0 <= j < t.jobs.len(),
        room >= JOB_DEPTH_MAX,
    ensures
        gone_above(t.jobs, j) ==> sealed_above(t.jobs, j),
        t.gate(j, room, true) == if sealed_above(t.jobs, j) {
            Err::<(), _>(SystemCallError::ObjectClosed)
        } else {
            Ok(())
        },
        1 <= depth(t.jobs, j) <= JOB_DEPTH_MAX,
        t.child_gate(j, room, true) == if depth(t.jobs, j) == JOB_DEPTH_MAX && !gone_above(
            t.jobs,
            j,
        ) {
            Err::<(), _>(SystemCallError::IllegalArgument)
        } else {
            t.gate(j, room, true)
        },
{
    assert(depth(t.jobs, j) <= JOB_DEPTH_MAX);
    walk_reaches_the_root(t, j, 0, room);
}

/// A dead job is sealed, has nothing in it, and takes nothing any more.
pub proof fn dead_is_final(t: TreeView, j: int, room: int, lock_room: bool)
    requires
        tree_wf(t),
        0 <= j < t.jobs.len(),
        t.jobs[j].dead,
    ensures
        t.jobs[j].sealed,
        t.jobs[j].members.entries.len() == 0,
        t.jobs[j].children.entries.len() == 0,
        !t.jobs[j].ready(),
        sealed_above(t.jobs, j),
        t.gate(j, room, lock_room) is Err,
{
}

/// A reservation that is given up leaves the members as they were.
pub proof fn reserve_then_rollback(t: TreeView, j: int, pid: Pid, token: u64)
    requires
        tree_wf(t),
        0 <= j < t.jobs.len(),
        !t.jobs[j].members.has(pid),
        t.jobs[j].members.entries.len() < JOB_DIRECT_ENTRY_LIMIT,
    ensures
        ({
            let reserved = t.with_members(
                j,
                t.jobs[j].members.inserted(pid, Entry::Reserved { token }),
            );
            &&& reserved.holds_member(j, MemberReservation { pid, token })
            &&& reserved.jobs[j].visible(JobMemberKind::MemberProcesses, pid) is None
            &&& reserved.with_members(j, reserved.jobs[j].members.removed(pid)) == t
        }),
{
    ordered_table::insert_then_remove(t.jobs[j].members, pid, Entry::Reserved { token });
    let reserved = t.with_members(j, t.jobs[j].members.inserted(pid, Entry::Reserved { token }));
    assert(reserved.with_members(j, reserved.jobs[j].members.removed(pid)).jobs =~= t.jobs);
}

/// The same for the next process identity, once it and a token are drawn.
pub proof fn reserve_then_rollback_new(
    t: TreeView,
    drawn: TreeView,
    j: int,
    pid: Pid,
    token: u64,
)
    requires
        tree_wf(t),
        0 <= j < t.jobs.len(),
        drawn == t.token_taken().pid_taken(),
        t.next_pid == Some(pid),
        t.jobs[j].members.entries.len() < JOB_DIRECT_ENTRY_LIMIT,
    ensures
        ({
            let reserved = drawn.with_members(
                j,
                t.jobs[j].members.inserted(pid, Entry::Reserved { token }),
            );
            reserved.with_members(j, reserved.jobs[j].members.removed(pid)).jobs == t.jobs
        }),
{
    let members = t.jobs[j].members;
    assert forall|k: int| 0 <= k < members.entries.len() implies (#[trigger] members.entries[k]).0
        < pid by {
        assert(ids::spent(t.next_pid, t.jobs[j].members.entries[k].0));
    }
    ordered_table::larger_is_absent(members, pid);
    reserve_then_rollback(t, j, pid, token);
    let reserved = drawn.with_members(j, members.inserted(pid, Entry::Reserved { token }));
    ordered_table::insert_then_remove(members, pid, Entry::Reserved { token });
    assert(reserved.with_members(j, reserved.jobs[j].members.removed(pid)).jobs =~= t.jobs);
}

/// A reservation for the next process identity shows nowhere until it is committed: the
/// identity is larger than all that were handed out before, nobody finds a process under
/// it, a query of any job tells what it told before, and giving the reservation up brings
/// the members of every job back as they were.
pub proof fn reservation_is_invisible(t: TreeView, j: int, pid: Pid, token: u64)
    requires
        tree_wf(t),
        0 <= j < t.jobs.len(),
        t.next_pid == Some(pid),
        t.next_token == Some(token),
        t.jobs[j].members.entries.len() < JOB_DIRECT_ENTRY_LIMIT,
    ensures
        ({
            let drawn = t.token_taken().pid_taken();
            let reserved = drawn.with_members(
                j,
                t.jobs[j].members.inserted(pid, Entry::Reserved { token }),
            );
            &&& forall|earlier: Pid| #[trigger] ids::spent(t.next_pid, earlier) ==> earlier < pid
            &&& ids::spent(reserved.next_pid, pid)
            &&& forall|i: int, k: int|
                0 <= i < t.jobs.len() && 0 <= k < t.jobs[i].members.entries.len() ==> (
                #[trigger] t.jobs[i].members.entries[k]).0 < pid
            &&& reserved.holds_member(j, MemberReservation { pid, token })
            &&& reserved.jobs[j].visible(JobMemberKind::MemberProcesses, pid) is None
            &&& forall|i: int, snapshot: JobSnapshot|
                0 <= i < t.jobs.len() ==> #[trigger] tells(reserved.jobs[i], snapshot) == tells(
                    t.jobs[i],
                    snapshot,
                )
            &&& reserved.with_members(j, reserved.jobs[j].members.removed(pid)) == drawn
        }),
{
    let drawn = t.token_taken().pid_taken();
    let members = t.jobs[j].members;
    let entry = Entry::Reserved { token };
    let reserved = drawn.with_members(j, members.inserted(pid, entry));
    assert forall|i: int, k: int|
        0 <= i < t.jobs.len() && 0 <= k < t.jobs[i].members.entries.len() implies (
    #[trigger] t.jobs[i].members.entries[k]).0 < pid by {
        assert(ids::spent(t.next_pid, t.jobs[i].members.entries[k].0));
    }
    assert forall|k: int| 0 <= k < members.entries.len() implies (#[trigger] members.entries[k]).0
        < pid by {
        assert(t.jobs[j].members.entries[k].0 < pid);
    }
    ordered_table::larger_is_absent(members, pid);
    ordered_table::insert_then_remove(members, pid, entry);
    assert(reserved.with_members(j, reserved.jobs[j].members.removed(pid)).jobs =~= drawn.jobs);
    ordered_table::rank_facts(members.entries, pid, 0);
    ordered_table::reservation_counts_nothing(
        members.entries,
        members.place(pid),
        (pid, entry),
        members.entries.len() as int,
    );
    assert forall|i: int, snapshot: JobSnapshot| 0 <= i < t.jobs.len() implies #[trigger] tells(
        reserved.jobs[i],
        snapshot,
    ) == tells(t.jobs[i], snapshot) by {
        if i == j {
            assert(t.jobs[j].wf());
        }
    }
}

/// A reservation for the next process identity that is committed has entered the
/// process, and nothing else.
pub proof fn reserve_then_commit_new(
    t: TreeView,
    drawn: TreeView,
    j: int,
    pid: Pid,
    token: u64,
    process: u64,
)
    requires
        tree_wf(t),
        0 <= j < t.jobs.len(),
        drawn == t.token_taken().pid_taken(),
        t.next_pid == Some(pid),
        t.jobs[j].members.entries.len() < JOB_DIRECT_ENTRY_LIMIT,
    ensures
        ({
            let reserved = drawn.with_members(
                j,
                t.jobs[j].members.inserted(pid, Entry::Reserved { token }),
            );
            reserved.with_members(
                j,
                reserved.jobs[j].members.replaced(pid, Entry::Live(process)),
            ) == drawn.with_member(j, pid, process)
        }),
{
    let members = t.jobs[j].members;
    assert forall|k: int| 0 <= k < members.entries.len() implies (#[trigger] members.entries[k]).0
        < pid by {
        assert(ids::spent(t.next_pid, t.jobs[j].members.entries[k].0));
    }
    ordered_table::larger_is_absent(members, pid);
    let entry = Entry::Reserved { token };
    ordered_table::insert_then_replace(members, pid, entry, Entry::Live(process));
    let reserved = drawn.with_members(j, members.inserted(pid, entry));
    assert(reserved.with_members(
        j,
        reserved.jobs[j].members.replaced(pid, Entry::Live(process)),
    ).jobs =~= drawn.with_member(j, pid, process).jobs);
}

impl JobTree {
    /// A well-formed tree has a well-formed value.
    pub proof fn wf_view(&self)
        requires
            self.wf(),
        ensures
            tree_wf(self@),
    {
    }
}

/// Adding a new job that its parent holds keeps the tree well formed.
proof fn push_keeps_wf(t: TreeView, after: TreeView, j: int)
    requires
        tree_wf(t),
        after.jobs.len() == t.jobs.len() + 1,
        after.jobs.len() <= usize::MAX,
        after.jobs.drop_last() == t.jobs,
        after.next_jid == t.next_jid,
        after.next_pid == t.next_pid,
        0 <= j < t.jobs.len(),
        after.jobs.last().wf(),
        after.jobs.last() == JobView::fresh(
            after.jobs.last().jid,
            t.jobs[j].jid,
            Some(j as usize),
        ),
        t.jobs[j].children.entry(after.jobs.last().jid) == Some(
            Entry::Live(t.jobs.len() as u64),
        ),
        forall|i: int| 0 <= i < t.jobs.len() ==> (#[trigger] t.jobs[i]).jid
            != after.jobs.last().jid,
        // No other job has reserved the new identity.
        forall|a: int, k: int|
            0 <= a < t.jobs.len() && 0 <= k < t.jobs[a].children.entries.len() && (
            #[trigger] t.jobs[a].children.entries[k]).0 == after.jobs.last().jid ==> t.jobs[a].children.entries[k].1 is Live,
    ensures
        tree_wf(after),
{
    let n = t.jobs.len() as int;
    let new = after.jobs.last();
    assert forall|i: int| 0 <= i < n implies after.jobs[i] == t.jobs[i] by {
        assert(after.jobs.drop_last()[i] == t.jobs[i]);
    }
    assert(after.jobs[n] == new);
    assert forall|i: int|
        #![trigger depth(after.jobs, i)]
        0 <= i < after.jobs.len() implies depth(after.jobs, i) <= JOB_DEPTH_MAX && (
    after.jobs[i].children.entries.len() > 0 ==> depth(after.jobs, i) < JOB_DEPTH_MAX) by {
        same_depth(t.jobs, after.jobs, j);
        assert(t.jobs[j].children.entries.len() > 0);
        assert(depth(t.jobs, j) < JOB_DEPTH_MAX);
        if i < n {
            same_depth(t.jobs, after.jobs, i);
            assert(depth(t.jobs, i) <= JOB_DEPTH_MAX);
        }
    }
    ordered_table::entry_iff(t.jobs[j].children, new.jid, Entry::Live(n as u64));
    let m = choose|m: int|
        0 <= m < t.jobs[j].children.entries.len() && t.jobs[j].children.entries[m] == (
            new.jid,
            Entry::Live(n as u64),
        );
    assert(ids::spent(t.next_jid, t.jobs[j].children.entries[m].0));
    assert forall|i: int| 0 <= i < after.jobs.len() && !(#[trigger] after.jobs[i]).dead implies attached(
        after.jobs,
        i,
    ) by {
        if i < n {
            assert(attached(t.jobs, i));
            if let Some(p) = t.jobs[i].parent {
                assert(p < i);
            }
        }
    }
    assert forall|a: int, b: int| 0 <= a < b < after.jobs.len() implies (
    #[trigger] after.jobs[a]).jid != (#[trigger] after.jobs[b]).jid by {
        if b < n {
            assert(t.jobs[a].jid != t.jobs[b].jid);
        }
    }
    assert forall|a: int, k: int|
        0 <= a < after.jobs.len() && 0 <= k < after.jobs[a].members.entries.len() implies ids::spent(
        after.next_pid,
        (#[trigger] after.jobs[a].members.entries[k]).0,
    ) by {
        assert(a < n);
        assert(ids::spent(t.next_pid, t.jobs[a].members.entries[k].0));
    }
    assert forall|a: int, k: int|
        0 <= a < after.jobs.len() && 0 <= k < after.jobs[a].children.entries.len() implies ids::spent(
        after.next_jid,
        (#[trigger] after.jobs[a].children.entries[k]).0,
    ) by {
        assert(a < n);
        assert(ids::spent(t.next_jid, t.jobs[a].children.entries[k].0));
    }
    assert forall|a: int, k: int, i: int|
        0 <= a < after.jobs.len() && 0 <= k < after.jobs[a].children.entries.len() && (
        #[trigger] after.jobs[a].children.entries[k]).1 is Reserved && 0 <= i
            < after.jobs.len() implies (#[trigger] after.jobs[i]).jid
        != after.jobs[a].children.entries[k].0 by {
        assert(a < n);
        assert(t.jobs[a].children.entries[k].1 is Reserved);
        if i < n {
            assert(t.jobs[i].jid != t.jobs[a].children.entries[k].0);
        }
    }
    assert forall|a: int, k: int, b: int, x: int|
        0 <= a < after.jobs.len() && 0 <= b < after.jobs.len() && a != b && 0 <= k
            < after.jobs[a].children.entries.len() && 0 <= x
            < after.jobs[b].children.entries.len() && (
        #[trigger] after.jobs[a].children.entries[k]).1 is Reserved implies after.jobs[a].children.entries[k].0
        != (#[trigger] after.jobs[b].children.entries[x]).0 by {
        assert(a < n && b < n);
        assert(t.jobs[a].children.entries[k].1 is Reserved);
        assert(t.jobs[a].children.entries[k].0 != t.jobs[b].children.entries[x].0);
    }
}

/// The way up from a job is open exactly if none of its ancestors is gone and all of them, with
/// the job itself, can be remembered and are no more than the tree may be deep; it then counts
/// them.
pub proof fn way_up_counts_the_ancestors(jobs: Seq<JobView>, j: int, k: int, room: int)
    requires
        0 <= j < jobs.len(),
        0 <= k,
        forall|i: int| 0 <= i < jobs.len() ==> ((#[trigger] jobs[i]).parent matches Some(p) ==> p < i),
    ensures
        walk_up(jobs, j, k, room) is Ok <==> !gone_above(jobs, j) && k + depth(jobs, j) <= room && k
            + depth(jobs, j) <= JOB_DEPTH_MAX,
        walk_up(jobs, j, k, room) matches Ok(n) ==> n == k + depth(jobs, j),
        !gone_above(jobs, j) && room < k + depth(jobs, j) && room <= JOB_DEPTH_MAX ==> walk_up(
            jobs,
            j,
            k,
            room,
        ) == Err::<int, _>(SystemCallError::OutOfMemory),
        !gone_above(jobs, j) && k <= JOB_DEPTH_MAX < k + depth(jobs, j) && room > JOB_DEPTH_MAX
            ==> walk_up(jobs, j, k, room) == Err::<int, _>(SystemCallError::IllegalArgument),
    decreases j,
{
    if let Some(p) = jobs[j].parent {
        way_up_counts_the_ancestors(jobs, p as int, k + 1, room);
    }
}

/// A job is sealed off exactly if it or an ancestor is sealed, and its ancestors are one fewer
/// with every step up.
pub proof fn ancestors_step_by_step(jobs: Seq<JobView>, j: int, p: usize)
    requires
        0 <= p < j < jobs.len(),
        jobs[j].parent == Some(p),
    ensures
        sealed_above(jobs, j) <==> jobs[j].sealed || sealed_above(jobs, p as int),
        gone_above(jobs, j) <==> jobs[p as int].released || gone_above(jobs, p as int),
        depth(jobs, j) == depth(jobs, p as int) + 1,
        above(jobs, p as int, j) && above(jobs, j, j),
{
    reveal_with_fuel(above, 2);
}

/// A job is dead exactly when nothing can come into it and nothing is left in it: it is sealed,
/// without members and without children; and death is for good.
pub proof fn death_needs_a_seal_and_emptiness(job: JobView)
    requires
        job.wf(),
    ensures
        job.settled().dead <==> job.dead || (job.sealed && job.members.entries.len() == 0
            && job.children.entries.len() == 0),
        (JobView { dead: job.dead, ..job.settled() }) == job,
        job.ready() ==> !job.dead && job.sealed,
        job.state() is Dead <==> job.dead,
        job.state() is Open <==> !job.dead && !job.sealed,
        (JobView { wait: job.wait, ..job.published() }) == job,
{
}

/// A new job is open and empty, and knows its parent.
pub proof fn new_jobs_are_open_and_empty(jid: JobId, parent_jid: JobId, parent: Option<usize>)
    ensures
        ({
            let job = JobView::fresh(jid, parent_jid, parent);
            &&& job.jid == jid && job.parent_jid == parent_jid && job.parent == parent
            &&& job.members.entries.len() == 0 && job.children.entries.len() == 0
            &&& !job.sealed && !job.dead && !job.released
            &&& job.state() is Open && job.wait.signals == 0
            &&& job.members.limit == JOB_DIRECT_ENTRY_LIMIT && job.children.limit
                == JOB_DIRECT_ENTRY_LIMIT
        }),
{
}

/// A job that is created is the last of the tree, a visible child of its parent under its
/// identity, and one level deeper; no other job changes.
pub proof fn created_jobs_join_their_parent(t: TreeView, j: int, jid: JobId)
    requires
        tree_wf(t),
        0 <= j < t.jobs.len(),
        !t.jobs[j].children.has(jid),
        t.jobs[j].children.entries.len() < JOB_DIRECT_ENTRY_LIMIT,
        t.jobs.len() < usize::MAX,
    ensures
        ({
            let after = t.with_child(j, jid);
            let n = t.jobs.len() as int;
            &&& after.jobs.len() == n + 1
            &&& after.jobs[n].jid == jid && after.jobs[n].parent == Some(j as usize)
            &&& after.jobs[n].parent_jid == t.jobs[j].jid && after.jobs[n].state() is Open
            &&& after.jobs[j].visible(JobMemberKind::ChildJobs, jid) == Some(n as u64)
            &&& after.jobs[j].members == t.jobs[j].members && after.jobs[j].sealed
                == t.jobs[j].sealed && after.jobs[j].dead == t.jobs[j].dead
            &&& after.jobs[j].children.entries.len() == t.jobs[j].children.entries.len() + 1
            &&& forall|i: int|
                0 <= i < n && i != j ==> #[trigger] after.jobs[i] == t.jobs[i]
            &&& after.next_jid == t.next_jid && after.next_pid == t.next_pid
        }),
{
    ordered_table::insert_then_remove(
        t.jobs[j].children,
        jid,
        Entry::Live(t.jobs.len() as u64),
    );
    ordered_table::rank_facts(t.jobs[j].children.entries, jid, 0);
}

/// A process that joins a job is a visible member of it under its identity, and of no other; no
/// other job changes, nor the job's children.
pub proof fn processes_join_their_job(t: TreeView, j: int, pid: Pid, process: u64)
    requires
        tree_wf(t),
        0 <= j < t.jobs.len(),
        !t.jobs[j].members.has(pid),
        t.jobs[j].members.entries.len() < JOB_DIRECT_ENTRY_LIMIT,
    ensures
        ({
            let after = t.with_member(j, pid, process);
            &&& after.jobs.len() == t.jobs.len()
            &&& after.jobs[j].visible(JobMemberKind::MemberProcesses, pid) == Some(process)
            &&& after.jobs[j].children == t.jobs[j].children && after.jobs[j].sealed
                == t.jobs[j].sealed && after.jobs[j].dead == t.jobs[j].dead
            &&& after.jobs[j].members.entries.len() == t.jobs[j].members.entries.len() + 1
            &&& forall|i: int|
                0 <= i < t.jobs.len() && i != j ==> #[trigger] after.jobs[i] == t.jobs[i]
        }),
{
    ordered_table::insert_then_remove(t.jobs[j].members, pid, Entry::Live(process));
    ordered_table::rank_facts(t.jobs[j].members.entries, pid, 0);
}

/// Only what is visible is told, and what is reserved is not; each kind of entry has its own
/// table, and callers name them by zero and one.
pub proof fn kinds_have_their_own_tables(job: JobView, id: u64, raw: u64)
    ensures
        job.table(JobMemberKind::ChildJobs) == job.children,
        job.table(JobMemberKind::MemberProcesses) == job.members,
        job.visible(JobMemberKind::ChildJobs, id) matches Some(object) ==> job.children.entry(id)
            == Some(Entry::Live(object)),
        job.visible(JobMemberKind::MemberProcesses, id) matches Some(object) ==> job.members.entry(id)
            == Some(Entry::Live(object)),
        job.children.entry(id) matches Some(Entry::Reserved { .. }) ==> job.visible(
            JobMemberKind::ChildJobs,
            id,
        ) is None,
        kind_of(raw) == Ok::<_, SystemCallError>(JobMemberKind::ChildJobs) <==> raw == 0,
        kind_of(raw) == Ok::<_, SystemCallError>(JobMemberKind::MemberProcesses) <==> raw == 1,
        raw > 1 ==> kind_of(raw) == Err::<JobMemberKind, _>(SystemCallError::IllegalArgument),
{
}

/// An attempt to create something draws numbers and changes nothing else: none if the way is shut,
/// and else one token and, where there is one, one identity of its own kind.
pub proof fn attempts_draw_one_number_each(t: TreeView, j: int, room: int, lock_room: bool)
    requires
        t.next_token matches Some(n) && n < u64::MAX,
        t.next_jid matches Some(n) && n < u64::MAX,
        t.next_pid matches Some(n) && n < u64::MAX,
    ensures
        ({
            let after = t.child_drawn(j, room, lock_room);
            &&& after.jobs == t.jobs && after.next_pid == t.next_pid
            &&& t.child_gate(j, room, lock_room) is Err ==> after == t
            &&& t.child_gate(j, room, lock_room) is Ok ==> after.next_jid == Some(
                (t.next_jid->0 + 1) as u64,
            ) && after.next_token == Some((t.next_token->0 + 1) as u64)
        }),
        ({
            let after = t.member_drawn(j, room, lock_room);
            &&& after.jobs == t.jobs && after.next_jid == t.next_jid
            &&& t.gate(j, room, lock_room) is Err ==> after == t
            &&& t.gate(j, room, lock_room) is Ok ==> after.next_pid == Some(
                (t.next_pid->0 + 1) as u64,
            ) && after.next_token == Some((t.next_token->0 + 1) as u64)
        }),
{
}

/// Job `path[k]` of a completion is the parent of the one before; it lost that child and died of
/// it.
pub open spec fn climbs_at(
    jobs: Seq<JobView>,
    after: Seq<JobView>,
    path: Seq<usize>,
    k: int,
) -> bool {
    let job = path[k] as int;
    let child = path[k - 1] as int;
    &&& 0 <= job < child < jobs.len()
    &&& jobs[child].parent == Some(path[k])
    &&& after[job] == jobs[job].without_child(jobs[child].jid).settled().published()
    &&& after[job].dead
}

/// A completion goes up from parent to parent: the jobs that tell their observers are the one that
/// completed and then, one by one, each the parent of the one before; each of these lost that child
/// and died of it. The parent of the last only loses the child. No other job changes.
pub proof fn completion_goes_from_parent_to_parent(jobs: Seq<JobView>, c: int)
    requires
        0 <= c < jobs.len() <= usize::MAX,
        forall|i: int|
            0 <= i < jobs.len() ==> ((#[trigger] jobs[i]).parent matches Some(p) ==> p < i),
    ensures
        ({
            let (after, path) = closing(jobs, c);
            let last = path.last() as int;
            &&& after.len() == jobs.len()
            &&& path.len() >= 1 && path[0] == c && 0 <= last <= c
            &&& after[c] == jobs[c].published()
            &&& forall|k: int| 1 <= k < path.len() ==> #[trigger] climbs_at(jobs, after, path, k)
            &&& jobs[last].parent matches Some(p) ==> after[p as int]
                == jobs[p as int].without_child(jobs[last].jid) && !after[p as int].ready()
            &&& forall|i: int|
                0 <= i < jobs.len() && !path.contains(i as usize) && jobs[last].parent != Some(
                    i as usize,
                ) ==> #[trigger] after[i] == jobs[i]
        }),
    decreases c,
{
    let told = jobs.update(c, jobs[c].published());
    let (after, path) = closing(jobs, c);
    assert(path[0] == c);
    if let Some(q) = jobs[c].parent {
        let p = q as int;
        let rest = told[p].without_child(told[c].jid);
        let next = told.update(p, rest.settled());
        if rest.ready() {
            completion_goes_from_parent_to_parent(next, p);
            let upper = closing(next, p).1;
            assert(path =~= seq![c as usize] + upper);
            assert(after == closing(next, p).0);
            assert forall|k: int| 1 <= k < path.len() implies #[trigger] climbs_at(
                jobs,
                after,
                path,
                k,
            ) by {
                assert(path[k] == upper[k - 1]);
                if k > 1 {
                    assert(path[k - 1] == upper[k - 2]);
                    assert(climbs_at(next, after, upper, k - 1));
                    stays_below(next, after, upper, k - 1);
                }
            }
            assert(path.last() == upper.last());
            stays_below(next, after, upper, upper.len() - 1);
            if upper.contains(c as usize) {
                let k = choose|k: int| 0 <= k < upper.len() && upper[k] == c as usize;
                stays_below(next, after, upper, k);
            }
            assert(after[c] == next[c]);
            assert forall|i: int|
                0 <= i < jobs.len() && !path.contains(i as usize) && jobs[path.last() as int].parent
                    != Some(i as usize) implies #[trigger] after[i] == jobs[i] by {
                assert(path[0] == c);
                assert(path[1] == p);
                assert(path.contains(c as usize) && path.contains(p as usize));
                if upper.contains(i as usize) {
                    let k = choose|k: int| 0 <= k < upper.len() && upper[k] == i as usize;
                    assert(path[k + 1] == i as usize);
                }
            }
        } else {
            assert(path =~= seq![c as usize]);
        }
    } else {
        assert(path =~= seq![c as usize]);
    }
}

/// A way up never comes back to where it was.
proof fn stays_below(jobs: Seq<JobView>, after: Seq<JobView>, path: Seq<usize>, k: int)
    requires
        0 <= k < path.len(),
        forall|i: int| 1 <= i < path.len() ==> #[trigger] climbs_at(jobs, after, path, i),
    ensures
        path[k] <= path[0],
        k > 0 ==> path[k] < path[0],
    decreases k,
{
    if k > 0 {
        stays_below(jobs, after, path, k - 1);
        assert(climbs_at(jobs, after, path, k));
    }
}

/// A full table is a limit, a table that cannot grow is want of memory.
pub proof fn insertion_failures_stay_apart(error: InsertError)
    ensures
        insert_reported(error) == SystemCallError::ReachLimit <==> error is Limit,
        insert_reported(error) == SystemCallError::OutOfMemory <==> error is Allocation,
{
}

/// Paging through a table tells each identity once and in order, and skips none: what a page tells
/// is behind the cursor and visible, every visible identity up to the next cursor is told, and if
/// nothing stands behind the page all of them are.
pub proof fn pages_skip_nothing(table: TableView, cursor: u64, cap: int, i: int)
    requires
        table.wf(),
        0 <= cap,
        0 <= i < table.entries.len(),
        table.entries[i].0 > cursor,
    ensures
        ({
            let ids = page_ids(table, cursor, cap);
            let next = page_cursor(table, cursor, cap);
            &&& ids.len() <= cap && next >= cursor
            &&& ids.len() > 0 ==> next > cursor
            &&& table.entries[i].0 <= next ==> ids.contains(table.entries[i].0)
                && table.entries[i].1 is Live
            &&& !page_more(table, cursor, cap) ==> ids.contains(table.entries[i].0)
            &&& forall|k: int| 0 <= k < ids.len() ==> cursor < #[trigger] ids[k] <= next
            &&& forall|a: int, b: int|
                0 <= a < b < ids.len() ==> #[trigger] ids[a] < #[trigger] ids[b]
            &&& ids.len() == 0 && cap > 0 ==> page_more(table, cursor, cap)
        }),
{
    ordered_table::pages_are_as_long_as_can_be(table, cursor, cap);
    let start = table.page_start(cursor);
    let end = table.page_end(cursor, cap);
    let ids = page_ids(table, cursor, cap);
    assert(i >= start);
    assert forall|k: int| 0 <= k < ids.len() implies cursor < #[trigger] ids[k] && ids[k]
        == table.entries[start + k].0 && ids[k] <= ids.last() by {
        assert(ids.last() == table.entries[end - 1].0);
        if start + k < end - 1 {
            assert(table.entries[start + k].0 < table.entries[end - 1].0);
        }
    }
    if i < end {
        assert(ids[i - start] == table.entries[i].0);
        ordered_table::page_is_visible(table, cursor, cap, i);
    } else if ids.len() > 0 {
        assert(table.entries[end - 1].0 < table.entries[i].0);
    }
}

/// A process that leaves its job takes its own entry along and no other; what is left of the job
/// dies of it exactly if it is sealed and has nothing else.
pub proof fn members_leave_alone(t: TreeView, j: int, pid: Pid)
    requires
        tree_wf(t),
        0 <= j < t.jobs.len(),
        t.jobs[j].members.has(pid),
    ensures
        ({
            let rest = t.jobs[j].without_member(pid);
            &&& !rest.members.has(pid)
            &&& rest.members.entries.len() == t.jobs[j].members.entries.len() - 1
            &&& (JobView { members: t.jobs[j].members, ..rest }) == t.jobs[j]
            &&& rest.ready() <==> t.jobs[j].sealed && !t.jobs[j].dead
                && t.jobs[j].members.entries.len() == 1 && t.jobs[j].children.entries.len() == 0
        }),
{
    ordered_table::remove_keeps_order(t.jobs[j].members, pid);
    ordered_table::rank_facts(t.jobs[j].members.entries, pid, 0);
}

} // verus!
