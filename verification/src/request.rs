//! Requests that run for several turns: draining a process within the caller's budget,
//! across pauses.
use vstd::prelude::*;

use crate::notify_work::Reservation;

verus! {

/// The budget of one visit to a queue: how much may be done, and how much was.
#[derive(Clone, Copy, Debug, PartialEq, Eq, Structural)]
pub struct VisitBudget {
    pub budget: usize,
    pub used: usize,
    /// The most that one entry may do per turn.
    pub turn_max: usize,
}

impl VisitBudget {
    pub open spec fn wf(self) -> bool {
        self.used <= self.budget && self.turn_max > 0
    }

    /// How much the next entry may do; `None` if the budget is used up.
    pub open spec fn next_turn(self) -> Option<usize> {
        if self.used >= self.budget {
            None
        } else if self.budget - self.used < self.turn_max {
            Some((self.budget - self.used) as usize)
        } else {
            Some(self.turn_max)
        }
    }

    /// The budget after a turn that did `work`.
    pub open spec fn charged(self, work: usize) -> VisitBudget {
        VisitBudget {
            used: (self.used + if work == 0 {
                1
            } else {
                work as int
            }) as usize,
            ..self
        }
    }

    /// The budget after turns that did `works`.
    pub open spec fn visited(self, works: Seq<usize>) -> VisitBudget
        decreases works.len(),
    {
        if works.len() == 0 {
            self
        } else {
            self.visited(works.drop_last()).charged(works.last())
        }
    }

    pub fn new(budget: usize, turn_max: usize) -> (r: VisitBudget)
        requires
            turn_max > 0,
        ensures
            r.wf(),
            r == (VisitBudget { budget, used: 0, turn_max }),
    {
        VisitBudget { budget, used: 0, turn_max }
    }

    /// How much the next entry may do; `None` if the budget is used up.
    pub fn turn(&self) -> (r: Option<usize>)
        requires
            self.wf(),
        ensures
            r == self.next_turn(),
            r matches Some(turn) ==> 0 < turn <= self.budget - self.used,
    {
        if self.used >= self.budget {
            return None;
        }
        let left: usize = self.budget - self.used;
        if left < self.turn_max {
            Some(left)
        } else {
            Some(self.turn_max)
        }
    }

    /// Accounts for a turn that did `work`; a turn counts as one even if it did
    /// nothing. The budget is never exceeded.
    pub fn charge(&mut self, work: usize)
        requires
            old(self).wf(),
            old(self).used < old(self).budget,
            work <= old(self).budget - old(self).used,
        ensures
            final(self).wf(),
            *final(self) == old(self).charged(work),
            final(self).used > old(self).used,
    {
        self.used = self.used + if work == 0 {
            1
        } else {
            work
        };
    }
}

/// Turn `k` of a visit was due: the budget was not used up, an entry was queued, and it
/// did no more than it was given. `queued` is how many entries there were before each
/// turn.
pub open spec fn turn_due(
    start: VisitBudget,
    works: Seq<usize>,
    queued: Seq<nat>,
    k: int,
) -> bool {
    &&& queued[k] > 0
    &&& start.visited(works.take(k)).next_turn() matches Some(turn) && works[k] <= turn
}

/// A whole visit to a queue: turn after turn, until the budget is used up or nothing is
/// queued.
pub open spec fn whole_visit(start: VisitBudget, works: Seq<usize>, queued: Seq<nat>) -> bool {
    &&& start.wf()
    &&& start.used == 0
    &&& queued.len() == works.len() + 1
    &&& forall|k: int| 0 <= k < works.len() ==> #[trigger] turn_due(start, works, queued, k)
    &&& start.visited(works).next_turn() is None || queued.last() == 0
}

/// The first `n` turns of a visit keep to its budget, and each costs something.
proof fn turns_keep_to_budget(start: VisitBudget, works: Seq<usize>, queued: Seq<nat>, n: int)
    requires
        start.wf(),
        start.used == 0,
        0 <= n <= works.len(),
        forall|k: int| 0 <= k < works.len() ==> #[trigger] turn_due(start, works, queued, k),
    ensures
        start.visited(works.take(n)).wf(),
        start.visited(works.take(n)).budget == start.budget,
        n <= start.visited(works.take(n)).used <= start.budget,
    decreases n,
{
    if n > 0 {
        turns_keep_to_budget(start, works, queued, n - 1);
        assert(turn_due(start, works, queued, n - 1));
        assert(works.take(n).drop_last() =~= works.take(n - 1));
    }
}

/// What a whole visit reports: never more than its budget, and at least one for each
/// entry that had a turn. Without a budget nothing has a turn; with one, nothing is
/// reported exactly if nothing was queued.
pub proof fn visit_reports_its_work(start: VisitBudget, works: Seq<usize>, queued: Seq<nat>)
    requires
        whole_visit(start, works, queued),
    ensures
        start.visited(works).used <= start.budget,
        works.len() <= start.visited(works).used,
        start.budget == 0 ==> works.len() == 0 && start.visited(works).used == 0,
        start.budget > 0 ==> (start.visited(works).used == 0 <==> queued[0] == 0),
{
    assert(works.take(works.len() as int) =~= works);
    turns_keep_to_budget(start, works, queued, works.len() as int);
    if works.len() > 0 {
        assert(turn_due(start, works, queued, 0));
        assert(works.take(0).len() == 0);
    }
}

/// How a batch of draining ended.
#[derive(Clone, Copy, Debug, PartialEq, Eq, Structural)]
pub enum DrainBatchOutcome {
    Complete,
    More,
    /// It waits for the retirement of this object.
    Blocked(u64),
}

/// What the caller is told.
#[derive(Clone, Copy, Debug, PartialEq, Eq, Structural)]
pub struct ProcessDrainResult {
    pub work_done: u32,
    /// The process is drained; else there is more to do.
    pub complete: bool,
}

/// Where a request stands after a step.
#[derive(Clone, Copy, Debug, PartialEq, Eq, Structural)]
pub enum StepState {
    Complete,
    Runnable,
    Blocked(u64),
}

/// What a step did.
#[derive(Clone, Copy, Debug, PartialEq, Eq, Structural)]
pub struct StepResult {
    pub work_done: usize,
    pub state: StepState,
    /// What to write to the caller, if anything.
    pub reply: Option<ProcessDrainResult>,
}

/// A request to drain a process.
#[derive(Clone, Copy, Debug, PartialEq, Eq, Structural)]
pub struct DrainRequest {
    /// How much the caller asked for.
    pub budget: usize,
    pub work_done: usize,
    /// Where the caller wants the result.
    pub output: usize,
    /// Which wait of the caller it answers.
    pub key: u64,
}

impl DrainRequest {
    pub open spec fn wf(self) -> bool {
        self.work_done <= self.budget && self.budget <= u32::MAX
    }

    /// How much the next batch may do in a turn of `turn`: what is left of the caller's
    /// budget, at most.
    pub fn batch(&self, turn: usize) -> (r: usize)
        requires
            self.wf(),
        ensures
            r == if self.budget - self.work_done < turn {
                (self.budget - self.work_done) as usize
            } else {
                turn
            },
            self.work_done + r <= self.budget,
    {
        let remaining: usize = self.budget - self.work_done;
        if remaining < turn {
            remaining
        } else {
            turn
        }
    }

    /// Accounts for a batch that did `used` and ended with `outcome`. A request whose
    /// caller has gone away (`cancelled`) does nothing and ends without a reply.
    pub fn step(&mut self, cancelled: bool, used: usize, outcome: DrainBatchOutcome) -> (r:
        StepResult)
        requires
            old(self).wf(),
            used <= old(self).budget - old(self).work_done,
        ensures
            final(self).wf(),
            ({
                let done = if cancelled {
                    0
                } else {
                    used as int
                };
                let total = old(self).work_done + done;
                let complete = cancelled || outcome is Complete;
                let over = complete || total == old(self).budget;
                &&& *final(self) == (DrainRequest { work_done: total as usize, ..*old(self) })
                &&& r.work_done == done
                &&& r.state == if over {
                    StepState::Complete
                } else {
                    match outcome {
                        DrainBatchOutcome::Blocked(object) => StepState::Blocked(object),
                        _ => StepState::Runnable,
                    }
                }
                &&& r.reply == if over && !cancelled {
                    Some(ProcessDrainResult { work_done: total as u32, complete })
                } else {
                    None
                }
            }),
    {
        let done: usize = if cancelled {
            0
        } else {
            used
        };
        self.work_done = self.work_done + done;
        let complete: bool = cancelled || matches!(outcome, DrainBatchOutcome::Complete);
        if complete || self.work_done == self.budget {
            let reply = if cancelled {
                None
            } else {
                Some(ProcessDrainResult { work_done: self.work_done as u32, complete })
            };
            return StepResult { work_done: done, state: StepState::Complete, reply };
        }
        let state = match outcome {
            DrainBatchOutcome::Blocked(object) => StepState::Blocked(object),
            _ => StepState::Runnable,
        };
        StepResult { work_done: done, state, reply: None }
    }
}

/// Runs the requests to drain one process, one at a time. Its queue slot is paid for in
/// advance and comes back with every finished request.
#[derive(Clone, Copy, Debug, PartialEq, Eq)]
pub struct DrainExecutor {
    pub reservation: Option<Reservation>,
    pub request: Option<DrainRequest>,
    /// The retirement that the request waits for, and under which key.
    pub dependency: Option<(u64, u64)>,
    /// The process to drain, until the request is queued.
    pub activation: Option<u64>,
}

impl DrainExecutor {
    /// No request; the slot is here.
    pub open spec fn idle(self) -> bool {
        self.request is None && self.dependency is None && self.activation is None
            && self.reservation is Some
    }

    /// A request that is not queued yet.
    pub open spec fn prepared(self) -> bool {
        self.request is Some && self.dependency is None && self.activation is Some
            && self.reservation is Some
    }

    /// A queued request.
    pub open spec fn queued(self) -> bool {
        self.request is Some && self.dependency is None && self.activation is None
            && self.reservation is None
    }

    /// A request that waits for a retirement.
    pub open spec fn parked(self) -> bool {
        self.request is Some && self.dependency is Some && self.activation is None
            && self.reservation is None && (self.dependency->0).0 == self.request->0.key
    }

    /// A request is being carried out; it and the slot are out.
    pub open spec fn running(self) -> bool {
        self.request is None && self.dependency is None && self.activation is None
            && self.reservation is None
    }

    pub open spec fn wf(self) -> bool {
        self.idle() || self.prepared() || self.queued() || self.parked() || self.running()
    }

    pub fn new(reservation: Reservation) -> (r: DrainExecutor)
        ensures
            r.idle(),
            r.reservation == Some(reservation),
    {
        DrainExecutor {
            reservation: Some(reservation),
            request: None,
            dependency: None,
            activation: None,
        }
    }

    /// Takes a request on, to drain process `target`.
    pub fn begin(&mut self, target: u64, request: DrainRequest)
        requires
            old(self).idle(),
        ensures
            final(self).prepared(),
            *final(self) == (DrainExecutor {
                request: Some(request),
                activation: Some(target),
                ..*old(self)
            }),
    {
        self.request = Some(request);
        self.activation = Some(target);
    }

    /// Queues the prepared request with key `key`: the process to drain and the slot to
    /// queue it in. A start that comes too late, or for an earlier request, does
    /// nothing.
    pub fn start(&mut self, key: u64) -> (r: Option<(u64, Reservation)>)
        requires
            old(self).wf(),
            old(self).request matches Some(request) ==> request.key == key ==> old(
                self,
            ).prepared(),
        ensures
            final(self).wf(),
            ({
                let meant = old(self).request is Some && old(self).request->0.key == key;
                &&& r is Some <==> meant
                &&& !meant ==> *final(self) == *old(self)
                &&& meant ==> final(self).queued() && final(self).request == old(self).request
                &&& r matches Some((target, reservation)) ==> Some(target) == old(self).activation
                    && Some(reservation) == old(self).reservation
            }),
    {
        match self.request {
            None => {
                return None;
            },
            Some(request) => {
                if request.key != key {
                    return None;
                }
            },
        }
        let target = self.activation.take().unwrap();
        let reservation = self.reservation.take().unwrap();
        Some((target, reservation))
    }

    /// Takes the request out to carry it on.
    pub fn take(&mut self) -> (r: DrainRequest)
        requires
            old(self).queued() || old(self).parked(),
        ensures
            final(self).running(),
            Some(r) == old(self).request,
    {
        self.dependency = None;
        self.request.take().unwrap()
    }

    /// Puts the request back to be carried on later.
    pub fn restore(&mut self, request: DrainRequest)
        requires
            old(self).running(),
        ensures
            final(self).queued(),
            final(self).request == Some(request),
    {
        self.request = Some(request);
    }

    /// Puts the request back to wait for the retirement of `ticket`.
    pub fn restore_blocked(&mut self, request: DrainRequest, ticket: u64)
        requires
            old(self).running(),
        ensures
            final(self).parked(),
            final(self).request == Some(request),
            final(self).dependency == Some((request.key, ticket)),
    {
        self.request = Some(request);
        self.dependency = Some((request.key, ticket));
    }

    /// The request is finished; its slot comes back.
    pub fn complete(&mut self, reservation: Reservation)
        requires
            old(self).running(),
        ensures
            final(self).idle(),
            final(self).reservation == Some(reservation),
    {
        self.reservation = Some(reservation);
    }

    /// Calls the request with key `key` off: the retirement that is no longer waited
    /// for, and the request if it was not queued yet. A request that is queued or under
    /// way ends by itself.
    pub fn cancel(&mut self, key: u64) -> (r: (Option<u64>, Option<DrainRequest>))
        requires
            old(self).wf(),
        ensures
            final(self).wf(),
            r.0 == match old(self).dependency {
                Some((registered, ticket)) => if registered == key {
                    Some(ticket)
                } else {
                    None
                },
                None => None,
            },
            ({
                let unstarted = old(self).activation is Some && old(self).request is Some && old(
                    self,
                ).request->0.key == key;
                &&& r.1 == if unstarted {
                    old(self).request
                } else {
                    None
                }
                &&& unstarted ==> final(self).idle() && final(self).reservation == old(
                    self,
                ).reservation
                &&& !unstarted ==> *final(self) == *old(self)
            }),
    {
        let dependency = match self.dependency {
            Some((registered, ticket)) => if registered == key {
                Some(ticket)
            } else {
                None
            },
            None => None,
        };
        let unstarted: bool = match self.request {
            Some(request) => self.activation.is_some() && request.key == key,
            None => false,
        };
        if !unstarted {
            return (dependency, None);
        }
        self.activation = None;
        (dependency, self.request.take())
    }
}

/// A step never takes a request past its budget, and a request that is neither
/// complete nor blocked has budget left.
pub proof fn budget_is_kept(request: DrainRequest, used: usize)
    requires
        request.wf(),
        used <= request.budget - request.work_done,
        request.work_done + used != request.budget,
    ensures
        request.work_done + used < request.budget,
{
}

/// An entry may do as much as is left of the budget, but no more than one turn; once the budget is
/// used up there is no turn.
pub proof fn turns_stay_within_the_budget(visit: VisitBudget)
    requires
        visit.wf(),
    ensures
        visit.next_turn() is None <==> visit.used == visit.budget,
        visit.next_turn() matches Some(turn) ==> {
            &&& 0 < turn <= visit.turn_max
            &&& visit.used + turn <= visit.budget
            &&& turn == visit.turn_max || visit.used + turn == visit.budget
        },
{
}

/// How much turns cost altogether: what each of them did, and one for a turn that did nothing.
pub open spec fn cost(works: Seq<usize>) -> int
    decreases works.len(),
{
    if works.len() == 0 {
        0
    } else {
        cost(works.drop_last()) + if works.last() == 0 {
            1
        } else {
            works.last() as int
        }
    }
}

/// A visit is charged what its turns cost: all of it, and nothing else. Budget and length of a
/// turn do not change.
pub proof fn visits_are_charged_their_cost(visit: VisitBudget, works: Seq<usize>)
    requires
        visit.used + cost(works) <= usize::MAX,
    ensures
        visit.visited(works).used == visit.used + cost(works),
        visit.visited(works).budget == visit.budget,
        visit.visited(works).turn_max == visit.turn_max,
        cost(works) >= works.len(),
    decreases works.len(),
{
    if works.len() > 0 {
        visits_are_charged_their_cost(visit, works.drop_last());
    }
}

/// A request is in one place at a time: the slot is here while nothing is queued, the request is
/// here unless it is being carried out or there is none, a process to drain is known exactly until
/// the request is queued, and only a parked one waits for a retirement, its own.
pub proof fn requests_are_in_one_place(executor: DrainExecutor)
    requires
        executor.wf(),
    ensures
        executor.idle() || executor.prepared() <==> executor.reservation is Some,
        executor.idle() || executor.running() <==> executor.request is None,
        executor.idle() <==> executor.request is None && executor.reservation is Some,
        executor.running() <==> executor.request is None && executor.reservation is None,
        executor.prepared() <==> executor.activation is Some,
        executor.parked() <==> executor.dependency is Some,
        executor.queued() <==> executor.request is Some && executor.reservation is None
            && executor.dependency is None,
        executor.dependency matches Some((key, _)) ==> executor.request matches Some(request) && key
            == request.key,
{
}

/// A visit that is over has used its budget up, or nothing is queued any more.
pub proof fn visits_end_for_a_reason(start: VisitBudget, works: Seq<usize>, queued: Seq<nat>)
    requires
        whole_visit(start, works, queued),
    ensures
        start.visited(works).used >= start.visited(works).budget || queued[queued.len() - 1] == 0,
        queued.len() == works.len() + 1,
        forall|k: int| 0 <= k < works.len() ==> (#[trigger] queued[k]) > 0,
{
    assert forall|k: int| 0 <= k < works.len() implies (#[trigger] queued[k]) > 0 by {
        assert(turn_due(start, works, queued, k));
    }
}

} // verus!
