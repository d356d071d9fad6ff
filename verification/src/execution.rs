//! What a process and its threads need to be executed.
use vstd::prelude::*;

use crate::lifecycle::{Lifecycle, ProcessState};
use crate::object;
use crate::object::WaitView;
use crate::process::{ControlView, DeadSnapshot, IsaRequirement, ProcessControl};
use crate::signals;
use crate::thread::DepartureKind;

verus! {

/// What a process executes, and where: frozen when it starts, in one word. 0 means that
/// the process has not started.
#[derive(Clone, Copy, Debug, PartialEq, Eq, Structural)]
pub struct ExecutionBinding {
    pub word: usize,
}

impl ExecutionBinding {
    /// The word for a requirement and the scheduling domain of this index: the domain
    /// counted from 1, above one bit for the requirement.
    pub open spec fn encoded(requirement: IsaRequirement, domain: int) -> int {
        (domain + 1) * 2 + if requirement == IsaRequirement::D64 {
            1int
        } else {
            0
        }
    }

    pub fn unbound() -> (r: ExecutionBinding)
        ensures
            r.word == 0,
    {
        ExecutionBinding { word: 0 }
    }

    /// Freezes what the process executes. This happens once.
    pub fn bind_execution(&mut self, requirement: IsaRequirement, domain: usize)
        requires
            old(self).word == 0,
            domain < usize::MAX / 4,
        ensures
            final(self).word == Self::encoded(requirement, domain as int),
            final(self).word != 0,
    {
        let bit: usize = match requirement {
            IsaRequirement::Base64 => 0,
            IsaRequirement::D64 => 1,
        };
        self.word = (domain + 1) * 2 + bit;
    }

    /// What the process executes.
    pub fn requirement(&self) -> (r: IsaRequirement)
        requires
            self.word != 0,
        ensures
            r == if self.word % 2 == 0 {
                IsaRequirement::Base64
            } else {
                IsaRequirement::D64
            },
    {
        if self.word % 2 == 0 {
            IsaRequirement::Base64
        } else {
            IsaRequirement::D64
        }
    }

    /// The scheduling domain of the process.
    pub fn domain(&self) -> (r: usize)
        requires
            self.word >= 2,
        ensures
            r == self.word / 2 - 1,
    {
        self.word / 2 - 1
    }
}

/// What was frozen is read back.
pub proof fn binding_reads_back(requirement: IsaRequirement, domain: int)
    requires
        0 <= domain,
    ensures
        ({
            let word = ExecutionBinding::encoded(requirement, domain);
            &&& word >= 2
            &&& word / 2 - 1 == domain
            &&& word % 2 == 0 <==> requirement == IsaRequirement::Base64
        }),
{
}

/// Where a thread starts.
#[derive(Clone, Copy, Debug, PartialEq, Eq, Structural)]
pub struct ThreadStartContext {
    pub entry: u64,
    pub stack_pointer: u64,
    pub arg1: u64,
    pub arg2: u64,
}

/// The registers of a thread that does not run.
pub struct UserContext {
    pub sepc: u64,
    pub x: Vec<u64>,
}

/// How many registers a thread has.
pub const REGISTERS: usize = 32;

/// The stack pointer.
pub const SP: usize = 2;

/// The first two arguments.
pub const A0: usize = 10;

pub const A1: usize = 11;

/// The registers with which a thread starts: nothing is left of whoever ran before.
pub fn initial_context(context: ThreadStartContext) -> (r: UserContext)
    ensures
        r.sepc == context.entry,
        r.x@.len() == REGISTERS,
        forall|i: int|
            0 <= i < REGISTERS ==> (#[trigger] r.x@[i]) == if i == SP {
                context.stack_pointer
            } else if i == A0 {
                context.arg1
            } else if i == A1 {
                context.arg2
            } else {
                0
            },
{
    let mut x: Vec<u64> = Vec::new();
    let mut index: usize = 0;
    while index < REGISTERS
        invariant
            index <= REGISTERS,
            x@.len() == index,
            forall|i: int| 0 <= i < index ==> #[trigger] x@[i] == 0,
        decreases REGISTERS - index,
    {
        x.push(0);
        index = index + 1;
    }
    x.set(SP, context.stack_pointer);
    x.set(A0, context.arg1);
    x.set(A1, context.arg2);
    UserContext { sepc: context.entry, x }
}

/// How a thread leaves.
#[derive(Clone, Copy, Debug, PartialEq, Eq, Structural)]
pub struct ThreadExit {
    pub normal: Option<i64>,
}

impl ThreadExit {
    pub fn new() -> (r: ThreadExit)
        ensures
            r.normal is None,
    {
        ThreadExit { normal: None }
    }

    /// The thread leaves by itself, with this code. This happens once.
    pub fn mark_normal_exit(&mut self, code: i64)
        requires
            old(self).normal is None,
        ensures
            final(self).normal == Some(code),
    {
        self.normal = Some(code);
    }

    /// How the thread left: by itself, or else it was ended.
    pub fn departure_kind(&self) -> (r: DepartureKind)
        ensures
            r == match self.normal {
                Some(code) => DepartureKind::Normal(code),
                None => DepartureKind::Terminated,
            },
    {
        match self.normal {
            Some(code) => DepartureKind::Normal(code),
            None => DepartureKind::Terminated,
        }
    }
}

/// A new control for a process whose control is gone. It shows at once what the old one
/// would show: that the process is gone, or that it can be reaped.
pub fn revive_control(core: u64, pid: u64, parent_pid: u64, lifecycle: &Lifecycle) -> (r:
    ProcessControl)
    requires
        lifecycle.wf(),
    ensures
        r.wf(),
        ({
            let fresh = WaitView::fresh(signals::NONE);
            r@ == if lifecycle@.state is Dead {
                ControlView {
                    core,
                    dead: Some(
                        DeadSnapshot {
                            pid,
                            parent_pid,
                            reason: lifecycle@.reason,
                            code: lifecycle@.code,
                        },
                    ),
                    wait: fresh.updated(signals::REAPABLE, signals::CLOSED),
                }
            } else {
                ControlView {
                    core,
                    dead: None,
                    wait: if lifecycle@.reapable() {
                        fresh.updated(signals::NONE, signals::REAPABLE)
                    } else {
                        fresh
                    },
                }
            }
        }),
        r@.wait.signals == if lifecycle@.state is Dead {
            signals::CLOSED
        } else if lifecycle@.reapable() {
            signals::REAPABLE
        } else {
            signals::NONE
        },
{
    let mut control = ProcessControl::new(core);
    let (state, reason, code) = lifecycle.snapshot();
    let dead: bool = match state {
        ProcessState::Dead => true,
        _ => false,
    };
    if dead {
        control.publish_dead(DeadSnapshot { pid, parent_pid, reason, code });
    } else if lifecycle.is_reapable() {
        proof {
            control.wf_view();
            assert((0u64 & !0u64) | 0x40 == 0x40 && 0u64 & 0x100 == 0) by (bit_vector);
            object::publication_is_exact(control@.wait, signals::NONE, signals::REAPABLE);
        }
        control.publish_reapable();
        proof {
            control.wf_view();
        }
    }
    control
}

} // verus!
