//! Draining a process that has ended, in batches of bounded work: first its handles are
//! closed, then its address space is taken apart, and last its end is published and
//! carried up its jobs.
use vstd::prelude::*;

use crate::handle::ProcessHandleEntry;
use crate::job::{CompletionCursor, CursorStep, JobTree, Pid, TreeView};
use crate::job;
use crate::lifecycle::{Lifecycle, LifecycleView, ProcessState};
use crate::ordered_table::Entry;
use crate::process::{ControlView, DeadSnapshot, ProcessControl};
use crate::signals;
use crate::space_drain::{DrainView, RetiredSpaceResource, SpaceDrain};

verus! {

/// What is left to publish.
#[derive(Clone, Copy, Debug, PartialEq, Eq, Structural)]
pub enum DrainFinalization {
    PublishDead,
    PropagateJob(CompletionCursor),
    Done,
}

/// A process that is drained.
pub struct ProcessDrain {
    /// The slots of the handle table, from the first on.
    slots: Vec<Option<ProcessHandleEntry>>,
    /// The next slot to look at.
    cursor: usize,
    /// Taken out of the table, but not closed yet.
    pending_close: Option<ProcessHandleEntry>,
    space: SpaceDrain,
    finalization: Option<DrainFinalization>,
}

/// A process that is drained, as a value.
#[verifier::ext_equal]
pub struct ProcessDrainView {
    pub slots: Seq<Option<ProcessHandleEntry>>,
    pub cursor: usize,
    pub pending_close: Option<ProcessHandleEntry>,
    pub space: DrainView,
    pub finalization: Option<DrainFinalization>,
}

impl View for ProcessDrain {
    type V = ProcessDrainView;

    closed spec fn view(&self) -> ProcessDrainView {
        ProcessDrainView {
            slots: self.slots@,
            cursor: self.cursor,
            pending_close: self.pending_close,
            space: self.space@,
            finalization: self.finalization,
        }
    }
}

/// The first slot, at or after `from` and before `limit`, that holds an entry; `limit` if
/// there is none.
pub open spec fn next_entry(slots: Seq<Option<ProcessHandleEntry>>, from: int, limit: int) -> int
    decreases limit - from,
{
    if from >= limit || slots[from] is Some {
        from
    } else {
        next_entry(slots, from + 1, limit)
    }
}

impl ProcessDrainView {
    pub open spec fn wf(self) -> bool {
        &&& self.cursor <= self.slots.len()
        &&& self.finalization is Some ==> self.space.stage is Done && self.cursor
            == self.slots.len() && self.pending_close is None
        &&& self.space.retired is None
    }

    /// How far a scan with `budget` gets.
    pub open spec fn scan_end(self, budget: int) -> int {
        let limit = if self.slots.len() < self.cursor + budget {
            self.slots.len() as int
        } else {
            self.cursor + budget
        };
        next_entry(self.slots, self.cursor as int, limit)
    }
}

/// What a batch does next.
#[derive(Clone, Copy, Debug, PartialEq, Eq, Structural)]
pub enum BatchStep {
    /// Close this entry, and report with [`ProcessDrain::closed`].
    Close(ProcessHandleEntry),
    /// Release this, and go on if there is budget left.
    Release(RetiredSpaceResource),
    /// Go on.
    Continue,
    /// The batch is over; the flag says whether the process is drained.
    End(bool),
}

/// A scan stops at an entry, at the end, or when the budget is used up.
proof fn next_entry_facts(slots: Seq<Option<ProcessHandleEntry>>, from: int, limit: int)
    requires
        0 <= from <= limit <= slots.len(),
    ensures
        from <= next_entry(slots, from, limit) <= limit,
        next_entry(slots, from, limit) < limit ==> slots[next_entry(slots, from, limit)] is Some,
    decreases limit - from,
{
    if from < limit && slots[from] is None {
        next_entry_facts(slots, from + 1, limit);
    }
}

impl ProcessDrain {
    pub closed spec fn wf(&self) -> bool {
        self@.wf() && self.space.wf()
    }

    pub proof fn wf_view(&self)
        requires
            self.wf(),
        ensures
            self@.wf(),
    {
    }

    /// Starts to drain a process.
    pub fn new(slots: Vec<Option<ProcessHandleEntry>>, space: SpaceDrain) -> (r: ProcessDrain)
        requires
            space.wf(),
            space@.retired is None,
        ensures
            r.wf(),
            r@ == (ProcessDrainView {
                slots: slots@,
                cursor: 0,
                pending_close: None,
                space: space@,
                finalization: None,
            }),
    {
        ProcessDrain { slots, cursor: 0, pending_close: None, space, finalization: None }
    }

    /// Starts a batch: an entry that the last batch left unclosed comes first.
    pub fn begin_batch(&mut self) -> (r: BatchStep)
        requires
            old(self).wf(),
        ensures
            final(self).wf(),
            r == match old(self)@.pending_close {
                Some(entry) => BatchStep::Close(entry),
                None => BatchStep::Continue,
            },
            final(self)@ == (ProcessDrainView { pending_close: None, ..old(self)@ }),
    {
        match self.pending_close.take() {
            Some(entry) => BatchStep::Close(entry),
            None => BatchStep::Continue,
        }
    }

    /// The entry was closed, or, if not `ok`, has to be closed again later. That took one
    /// unit of work, which makes `work` of at most `budget`.
    pub fn closed(&mut self, entry: ProcessHandleEntry, ok: bool, work: usize, budget: usize) -> (r:
        BatchStep)
        requires
            old(self).wf(),
            old(self)@.pending_close is None,
            old(self)@.finalization is None,
            0 < work <= budget,
        ensures
            final(self).wf(),
            r == if !ok || work == budget {
                BatchStep::End(false)
            } else {
                BatchStep::Continue
            },
            final(self)@ == if ok {
                old(self)@
            } else {
                ProcessDrainView { pending_close: Some(entry), ..old(self)@ }
            },
    {
        if !ok {
            self.pending_close = Some(entry);
            return BatchStep::End(false);
        }
        if work == budget {
            BatchStep::End(false)
        } else {
            BatchStep::Continue
        }
    }

    /// Looks for the next entry among at most `budget` slots: the slots looked at, and the
    /// entry.
    fn take_next_bounded(&mut self, budget: usize) -> (r: (usize, Option<ProcessHandleEntry>))
        requires
            old(self).wf(),
            old(self)@.finalization is None,
            budget > 0,
        ensures
            final(self).wf(),
            r.0 <= budget,
            ({
                let end = old(self)@.scan_end(budget as int);
                let limit = if old(self)@.slots.len() < old(self)@.cursor + budget {
                    old(self)@.slots.len() as int
                } else {
                    old(self)@.cursor + budget
                };
                if end < limit {
                    &&& r.1 == old(self)@.slots[end]
                    &&& r.1 is Some
                    &&& final(self)@.cursor == end + 1
                } else {
                    r.1 is None && final(self)@.cursor == end
                }
            }),
            r.0 == final(self)@.cursor - old(self)@.cursor,
            final(self)@ == (ProcessDrainView { cursor: final(self)@.cursor, ..old(self)@ }),
    {
        let ghost before = self@;
        let start: usize = self.cursor;
        let limit: usize = if self.slots.len() - start < budget {
            self.slots.len()
        } else {
            start + budget
        };
        proof {
            next_entry_facts(before.slots, start as int, limit as int);
        }
        while self.cursor < limit
            invariant
                before == old(self)@,
                start == before.cursor,
                start <= self.cursor <= limit <= before.slots.len(),
                limit - start <= budget,
                limit == if before.slots.len() < start + budget {
                    before.slots.len() as int
                } else {
                    start + budget
                },
                self.wf(),
                before.finalization is None,
                self@ == (ProcessDrainView { cursor: self.cursor, ..before }),
                next_entry(before.slots, start as int, limit as int) == next_entry(
                    before.slots,
                    self.cursor as int,
                    limit as int,
                ),
            decreases limit - self.cursor,
        {
            let found = self.slots[self.cursor];
            self.cursor = self.cursor + 1;
            if found.is_some() {
                return (self.cursor - start, found);
            }
        }
        (self.cursor - start, None)
    }

    /// Takes one step of a batch that has done `work` of at most `budget`; the work done
    /// after it comes with the step. The process is member `pid` of job `j`.
    pub fn step(
        &mut self,
        work: usize,
        budget: usize,
        control: &mut ProcessControl,
        lifecycle: &mut Lifecycle,
        tree: &mut JobTree,
        j: usize,
        pid: Pid,
        parent_pid: Pid,
    ) -> (r: (BatchStep, usize))
        requires
            old(self).wf(),
            old(self)@.pending_close is None,
            work < budget,
            old(control).wf(),
            old(lifecycle).wf(),
            old(tree).wf(),
            old(self)@.finalization == Some(DrainFinalization::PublishDead) ==> j < old(
                tree,
            )@.jobs.len() && (old(tree)@.jobs[j as int].members.entry(pid) matches Some(
                Entry::Live(_),
            )),
            old(self)@.finalization matches Some(DrainFinalization::PropagateJob(cursor))
                ==> cursor.on(old(tree)@),
        ensures
            final(self).wf(),
            final(control).wf(),
            final(lifecycle).wf(),
            final(tree).wf(),
            work <= r.1 <= budget,
            !(old(self)@.finalization is Some) ==> final(control)@ == old(control)@
                && final(lifecycle)@ == old(lifecycle)@ && final(tree)@ == old(tree)@,
            old(self)@.finalization matches Some(finalization) ==> final(self)@ == (
            ProcessDrainView { finalization: final(self)@.finalization, ..old(self)@ }),
            old(self)@.finalization == Some(DrainFinalization::PublishDead) ==> {
                let rest = job::JobView {
                    members: old(tree)@.jobs[j as int].members.removed(pid),
                    ..old(tree)@.jobs[j as int]
                };
                &&& r == (BatchStep::Continue, (work + 1) as usize)
                &&& final(control)@ == if old(control)@.dead is Some {
                    old(control)@
                } else {
                    ControlView {
                        dead: Some(
                            DeadSnapshot {
                                pid,
                                parent_pid,
                                reason: old(lifecycle)@.reason,
                                code: old(lifecycle)@.code,
                            },
                        ),
                        wait: old(control)@.wait.updated(signals::REAPABLE, signals::CLOSED),
                        ..old(control)@
                    }
                }
                &&& final(lifecycle)@ == (LifecycleView {
                    state: ProcessState::Dead,
                    ..old(lifecycle)@
                })
                &&& final(tree)@ == (TreeView {
                    jobs: old(tree)@.jobs.update(j as int, rest.settled()),
                    ..old(tree)@
                })
                &&& final(self)@.finalization == Some(
                    if rest.ready() {
                        DrainFinalization::PropagateJob(
                            CompletionCursor { child: j, published: false },
                        )
                    } else {
                        DrainFinalization::Done
                    },
                )
            },
            old(self)@.finalization matches Some(DrainFinalization::PropagateJob(cursor)) ==> {
                let c = cursor.child as int;
                &&& r == (BatchStep::Continue, (work + 1) as usize)
                &&& final(control)@ == old(control)@
                &&& final(lifecycle)@ == old(lifecycle)@
                &&& !cursor.published ==> {
                    &&& final(tree)@ == (TreeView {
                        jobs: old(tree)@.jobs.update(c, old(tree)@.jobs[c].published()),
                        ..old(tree)@
                    })
                    &&& final(self)@.finalization == Some(
                        DrainFinalization::PropagateJob(
                            CompletionCursor { published: true, ..cursor },
                        ),
                    )
                }
                &&& cursor.published && old(tree)@.jobs[c].parent is None ==> final(tree)@ == old(
                    tree,
                )@ && final(self)@.finalization == Some(DrainFinalization::Done)
                &&& cursor.published ==> (old(tree)@.jobs[c].parent matches Some(p) ==> {
                    let rest = old(tree)@.jobs[p as int].without_child(old(tree)@.jobs[c].jid);
                    &&& final(tree)@ == (TreeView {
                        jobs: old(tree)@.jobs.update(p as int, rest.settled()),
                        ..old(tree)@
                    })
                    &&& final(self)@.finalization == Some(
                        if rest.ready() {
                            DrainFinalization::PropagateJob(
                                CompletionCursor { child: p, published: false },
                            )
                        } else {
                            DrainFinalization::Done
                        },
                    )
                })
            },
            old(self)@.finalization == Some(DrainFinalization::Done) ==> {
                &&& r == (BatchStep::End(true), work)
                &&& final(self)@ == old(self)@
                &&& final(control)@ == old(control)@
                &&& final(lifecycle)@ == old(lifecycle)@
                &&& final(tree)@ == old(tree)@
            },
            old(self)@.finalization is None ==> scanned(
                old(self)@,
                final(self)@,
                work as int,
                budget as int,
                r,
            ),
            r.0 == BatchStep::End(true) ==> old(self)@.finalization == Some(
                DrainFinalization::Done,
            ),
    {
        match self.finalization {
            Some(DrainFinalization::PublishDead) => {
                let (_, reason, code) = lifecycle.snapshot();
                control.publish_dead(DeadSnapshot { pid, parent_pid, reason, code });
                lifecycle.mark_dead();
                let next = match tree.remove_member(j, pid) {
                    Some(cursor) => DrainFinalization::PropagateJob(cursor),
                    None => DrainFinalization::Done,
                };
                self.finalization = Some(next);
                (BatchStep::Continue, work + 1)
            },
            Some(DrainFinalization::PropagateJob(cursor)) => {
                let mut cursor = cursor;
                let next = match tree.advance(&mut cursor) {
                    CursorStep::Done => DrainFinalization::Done,
                    _ => DrainFinalization::PropagateJob(cursor),
                };
                self.finalization = Some(next);
                (BatchStep::Continue, work + 1)
            },
            Some(DrainFinalization::Done) => (BatchStep::End(true), work),
            None => self.scan_step(work, budget),
        }
    }

    /// Takes one step of a batch while there is still something to close or to release.
    fn scan_step(&mut self, work: usize, budget: usize) -> (r: (BatchStep, usize))
        requires
            old(self).wf(),
            old(self)@.pending_close is None,
            old(self)@.finalization is None,
            work < budget,
        ensures
            final(self).wf(),
            work <= r.1 <= budget,
            scanned(old(self)@, final(self)@, work as int, budget as int, r),
            r.0 != BatchStep::End(true),
    {
        let ghost before = self@;
        let (looked, found) = self.take_next_bounded(budget - work);
        let work: usize = work + looked;
        match found {
            Some(entry) => {
                if work == budget {
                    self.pending_close = Some(entry);
                    return (BatchStep::End(false), work);
                }
                return (BatchStep::Close(entry), work);
            },
            None => {},
        }
        if self.cursor < self.slots.len() || work == budget {
            return (BatchStep::End(false), work);
        }
        let (released, complete) = self.space.drain(budget - work);
        let retired = self.space.take_retired();
        if complete {
            self.finalization = Some(DrainFinalization::PublishDead);
        }
        let work: usize = work + released;
        match retired {
            Some(resource) => (BatchStep::Release(resource), work),
            None => if work == budget {
                (BatchStep::End(false), work)
            } else {
                (BatchStep::Continue, work)
            },
        }
    }
}

/// What a step does while there is still something to close or to release. One unit of
/// work is one slot that is looked at, or one unit of the address space. An entry for
/// which no work is left is kept for the next batch.
pub open spec fn scanned(
    before: ProcessDrainView,
    after: ProcessDrainView,
    work: int,
    budget: int,
    r: (BatchStep, usize),
) -> bool {
    let end = before.scan_end(budget - work);
    let limit = if before.slots.len() < before.cursor + (budget - work) {
        before.slots.len() as int
    } else {
        before.cursor + (budget - work)
    };
    if end < limit {
        let entry = before.slots[end]->0;
        let now = work + (end + 1 - before.cursor);
        &&& before.slots[end] is Some
        &&& r.1 == now
        &&& r.0 == if now == budget {
            BatchStep::End(false)
        } else {
            BatchStep::Close(entry)
        }
        &&& after == (ProcessDrainView {
            cursor: (end + 1) as usize,
            pending_close: if now == budget {
                Some(entry)
            } else {
                None
            },
            ..before
        })
    } else {
        let now = work + (end - before.cursor);
        &&& after.cursor == end
        &&& after.slots == before.slots
        &&& after.pending_close is None
        &&& if end < before.slots.len() || now == budget {
            r == (BatchStep::End(false), now as usize) && after.space == before.space
                && after.finalization is None
        } else {
            let (space, released, complete) = before.space.drained(budget - now);
            &&& after.space == (DrainView { retired: None, ..space })
            &&& r.1 == now + released
            &&& r.0 == match space.retired {
                Some(resource) => BatchStep::Release(resource),
                None => if r.1 == budget {
                    BatchStep::End(false)
                } else {
                    BatchStep::Continue
                },
            }
            &&& complete == (after.space.stage is Done)
            &&& after.space.work_left() == before.space.work_left() - (r.1 - now)
            &&& after.finalization == if after.space.stage is Done {
                Some(DrainFinalization::PublishDead)
            } else {
                None
            }
            &&& before.space.resources() == (match r.0 {
                BatchStep::Release(resource) => seq![resource],
                _ => Seq::empty(),
            }) + after.space.resources()
        }
    }
}

/// A batch that ends while there is something to close or to release has used its budget
/// up, and an entry that is handed out to be closed is not handed out again.
pub proof fn batches_make_progress(
    before: ProcessDrainView,
    after: ProcessDrainView,
    work: int,
    budget: int,
    r: (BatchStep, usize),
)
    requires
        before.wf(),
        before.finalization is None,
        0 <= work < budget <= usize::MAX,
        before.slots.len() <= usize::MAX,
        scanned(before, after, work, budget, r),
    ensures
        r.0 is End ==> r.1 == budget,
        r.0 is Close ==> after.cursor > before.cursor,
{
    let limit = if before.slots.len() < before.cursor + (budget - work) {
        before.slots.len() as int
    } else {
        before.cursor + (budget - work)
    };
    next_entry_facts(before.slots, before.cursor as int, limit);
}

/// A scan stops at the first slot that holds an entry, or at its limit.
pub proof fn scan_stops_at_an_entry(
    slots: Seq<Option<ProcessHandleEntry>>,
    from: int,
    limit: int,
)
    requires
        0 <= from <= limit <= slots.len(),
    ensures
        ({
            let end = next_entry(slots, from, limit);
            &&& from <= end <= limit
            &&& end < limit ==> slots[end] is Some
            &&& forall|j: int| from <= j < end ==> (#[trigger] slots[j]) is None
        }),
    decreases limit - from,
{
    if from < limit && slots[from] is None {
        scan_stops_at_an_entry(slots, from + 1, limit);
    }
}

/// A step looks at the slots in order, at no more of them than there is work for, and skips none
/// that holds an entry: what lies between the two places is empty but for the last, and that
/// entry is closed now or kept for the next batch. Slots are never changed, and work never passes
/// the budget.
pub proof fn steps_skip_no_entry(
    before: ProcessDrainView,
    after: ProcessDrainView,
    work: int,
    budget: int,
    r: (BatchStep, usize),
)
    requires
        before.wf(),
        before.finalization is None,
        before.pending_close is None,
        0 <= work < budget <= usize::MAX,
        before.slots.len() <= usize::MAX,
        scanned(before, after, work, budget, r),
    ensures
        after.slots == before.slots,
        before.cursor <= after.cursor <= before.slots.len(),
        after.cursor - before.cursor <= budget - work,
        forall|j: int|
            before.cursor <= j < after.cursor - 1 ==> (#[trigger] before.slots[j]) is None,
        after.pending_close matches Some(entry) ==> after.cursor > before.cursor
            && before.slots[after.cursor - 1] == Some(entry) && r.1 == budget && r.0
            == BatchStep::End(false),
        r.0 matches BatchStep::Close(entry) ==> after.cursor > before.cursor
            && before.slots[after.cursor - 1] == Some(entry) && after.pending_close is None && r.1
            == work + (after.cursor - before.cursor),
        after.pending_close is None && !(r.0 is Close) && after.cursor > before.cursor
            ==> before.slots[after.cursor - 1] is None,
        after.space != before.space ==> after.cursor == before.slots.len(),
        r.0 is Close || after.pending_close is Some ==> after.space == before.space
            && after.finalization is None,
{
    let limit = if before.slots.len() < before.cursor + (budget - work) {
        before.slots.len() as int
    } else {
        before.cursor + (budget - work)
    };
    scan_stops_at_an_entry(before.slots, before.cursor as int, limit);
}

/// A scan with a budget gets no further than the budget and the slots reach, and stops early only at
/// an entry.
pub proof fn scans_reach_as_far_as_the_budget(state: ProcessDrainView, budget: int)
    requires
        state.wf(),
        budget >= 0,
    ensures
        state.cursor <= state.scan_end(budget) <= state.slots.len(),
        state.scan_end(budget) <= state.cursor + budget,
        state.scan_end(budget) < state.slots.len() && state.scan_end(budget) < state.cursor + budget
            ==> state.slots[state.scan_end(budget)] is Some,
        forall|j: int|
            state.cursor <= j < state.scan_end(budget) ==> (#[trigger] state.slots[j]) is None,
{
    let limit = if state.slots.len() < state.cursor + budget {
        state.slots.len() as int
    } else {
        state.cursor + budget
    };
    scan_stops_at_an_entry(state.slots, state.cursor as int, limit);
}

} // verus!
