//! Retirement of objects in bounded steps, and who is told when it is over.
use vstd::prelude::*;

use crate::notify_work::Reservation;
use crate::object::Koid;
use crate::request::StepState;

verus! {

/// A retirement that was started: the object, the slot to queue it in if it is not
/// queued yet, and the wait that answers whoever asked for it.
#[derive(Clone, Copy, Debug, PartialEq, Eq, Structural)]
pub struct Launch {
    pub object: Koid,
    pub work: Option<Reservation>,
    pub reply: Option<u64>,
}

/// What publishing a retirement does: its progress is always announced.
#[derive(Clone, Copy, Debug, PartialEq, Eq, Structural)]
pub struct Published {
    pub announce: Koid,
    pub queue: Option<Reservation>,
    pub reply: Option<u64>,
}

impl Launch {
    pub fn publish(self) -> (r: Published)
        ensures
            r == (Published { announce: self.object, queue: self.work, reply: self.reply }),
    {
        Published { announce: self.object, queue: self.work, reply: self.reply }
    }
}

/// Who is told that a retirement is over: the process that asked for it, and the wait
/// that answers it.
#[derive(Clone, Copy, Debug, PartialEq, Eq, Structural)]
pub struct RetirementCompletion {
    pub reply: Option<u64>,
    pub owner: Option<u64>,
}

/// What telling them does.
#[derive(Clone, Copy, Debug, PartialEq, Eq, Structural)]
pub struct Delivered {
    /// The process that can be reaped now.
    pub reapable: Option<u64>,
    /// The wait to complete.
    pub complete: Option<u64>,
}

impl RetirementCompletion {
    /// Tells them; `last` says that this was the last thing that kept the process from
    /// being reaped.
    pub fn deliver(self, last: bool) -> (r: Delivered)
        ensures
            r == (Delivered {
                reapable: if last {
                    self.owner
                } else {
                    None
                },
                complete: self.reply,
            }),
    {
        Delivered {
            reapable: if last {
                self.owner
            } else {
                None
            },
            complete: self.reply,
        }
    }
}

/// What becomes of an object after a step of its retirement.
#[derive(Clone, Copy, Debug, PartialEq, Eq, Structural)]
pub enum RetireAction {
    /// Its slot is free; the retirement is finished.
    Finish,
    Requeue,
    /// It waits; the slot is kept until it is woken.
    Park,
}

/// What becomes of an object whose step did `work` of at most `turn` and ended in
/// `state`, and what the step costs. A step that can go on has done something.
pub fn step_end(turn: usize, work: usize, state: StepState) -> (r: (RetireAction, usize))
    requires
        turn > 0,
        work <= turn,
        state is Runnable ==> work > 0,
    ensures
        r.0 == match state {
            StepState::Complete => RetireAction::Finish,
            StepState::Runnable => RetireAction::Requeue,
            StepState::Blocked(_) => RetireAction::Park,
        },
        r.1 == if work == 0 {
            1
        } else {
            work
        },
        0 < r.1 <= turn,
{
    let action = match state {
        StepState::Complete => RetireAction::Finish,
        StepState::Runnable => RetireAction::Requeue,
        StepState::Blocked(_) => RetireAction::Park,
    };
    let cost: usize = if work == 0 {
        1
    } else {
        work
    };
    (action, cost)
}

} // verus!
