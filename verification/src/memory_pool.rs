//! Memory pools: quotas of pages that are charged, delegated to child pools, and
//! flow back.
//!
//! Every page of a pool is available, set aside, allocated or delegated. What a pool
//! has delegated is exactly what its children that are in use own; a child that goes
//! gives everything back.
use vstd::prelude::*;

use crate::error::SystemCallError;
use crate::handle;
use crate::handle::{ProcessHandleEntry, TableError};
use crate::object::{HandleRole, Koid, ObjectKind};
use crate::rights;
use crate::rights::Rights;

verus! {

/// Why a pool refused.
#[derive(Clone, Copy, Debug, PartialEq, Eq, Structural)]
pub enum PoolError {
    ZeroAmount,
    InvalidSplit,
    InvalidTopology,
    QuotaExceeded,
    DepthLimit,
    IdentityExhausted,
    ArithmeticOverflow,
    WrongOwner,
    InvariantViolation,
}

/// Why pages could not be funded.
#[derive(Clone, Copy, Debug, PartialEq, Eq, Structural)]
pub enum FundError {
    Quota(PoolError),
    Physical,
    ZeroPages,
    PageLimit,
    ExtentLimit,
    InvalidClaim,
}

/// How a pool's refusal is reported.
pub open spec fn pool_reported(error: PoolError) -> SystemCallError {
    match error {
        PoolError::ZeroAmount | PoolError::InvalidSplit | PoolError::InvalidTopology => {
            SystemCallError::IllegalArgument
        },
        PoolError::QuotaExceeded => SystemCallError::QuotaExceeded,
        PoolError::DepthLimit | PoolError::IdentityExhausted => SystemCallError::ReachLimit,
        PoolError::ArithmeticOverflow | PoolError::WrongOwner | PoolError::InvariantViolation => {
            SystemCallError::InternalError
        },
    }
}

/// How a pool's refusal is reported.
pub fn map_pool_error(error: PoolError) -> (r: SystemCallError)
    ensures
        r == pool_reported(error),
{
    match error {
        PoolError::ZeroAmount | PoolError::InvalidSplit | PoolError::InvalidTopology => {
            SystemCallError::IllegalArgument
        },
        PoolError::QuotaExceeded => SystemCallError::QuotaExceeded,
        PoolError::DepthLimit | PoolError::IdentityExhausted => SystemCallError::ReachLimit,
        PoolError::ArithmeticOverflow | PoolError::WrongOwner | PoolError::InvariantViolation => {
            SystemCallError::InternalError
        },
    }
}

/// Where a pool stands.
#[derive(Clone, Copy, Debug, PartialEq, Eq, Structural)]
pub enum PoolPhase {
    /// Its pages are set aside in the parent; nobody can use it yet.
    Prepared,
    Active,
    /// It has given everything back.
    Gone,
}

/// One pool.
#[derive(Clone, Copy, Debug, PartialEq, Eq, Structural)]
pub struct MemoryPool {
    pub identity: Koid,
    /// Position of the parent; the root has none.
    pub parent: Option<usize>,
    pub phase: PoolPhase,
    pub total: u64,
    pub available: u64,
    /// Set aside for charges.
    pub charging: u64,
    /// Set aside for children that are being made.
    pub delegating: u64,
    pub allocated: u64,
    pub delegated: u64,
    pub depth: u32,
}

/// What a query of a pool tells.
#[derive(Clone, Copy, Debug, PartialEq, Eq, Structural)]
pub struct MemoryPoolSnapshot {
    pub identity: Koid,
    /// Identity of the parent, zero for the root.
    pub parent_identity: Koid,
    pub total: u64,
    pub available: u64,
    pub reserved: u64,
    pub allocated: u64,
    pub delegated: u64,
    pub depth: u32,
}

impl MemoryPool {
    /// Every page is accounted for once.
    pub open spec fn balanced(self) -> bool {
        self.available + self.charging + self.delegating + self.allocated + self.delegated
            == self.total
    }

    /// All pages are available.
    pub open spec fn quiet(self) -> bool {
        self.available == self.total
    }

    /// The pool with `pages` set aside for a charge.
    pub open spec fn reserved(self, pages: u64) -> MemoryPool {
        MemoryPool {
            available: (self.available - pages) as u64,
            charging: (self.charging + pages) as u64,
            ..self
        }
    }

    /// The pool once `pages` that were set aside are charged.
    pub open spec fn charged(self, pages: u64) -> MemoryPool {
        MemoryPool {
            charging: (self.charging - pages) as u64,
            allocated: (self.allocated + pages) as u64,
            ..self
        }
    }

    /// The pool once `pages` that were set aside for a charge are available again.
    pub open spec fn unreserved(self, pages: u64) -> MemoryPool {
        MemoryPool {
            charging: (self.charging - pages) as u64,
            available: (self.available + pages) as u64,
            ..self
        }
    }

    /// The pool once `pages` that were charged are available again.
    pub open spec fn refunded(self, pages: u64) -> MemoryPool {
        MemoryPool {
            allocated: (self.allocated - pages) as u64,
            available: (self.available + pages) as u64,
            ..self
        }
    }

    /// The pool with `pages` set aside for a child.
    pub open spec fn earmarked(self, pages: u64) -> MemoryPool {
        MemoryPool {
            available: (self.available - pages) as u64,
            delegating: (self.delegating + pages) as u64,
            ..self
        }
    }

    /// The pool once the child that `pages` were set aside for is in use.
    pub open spec fn handed_down(self, pages: u64) -> MemoryPool {
        MemoryPool {
            delegating: (self.delegating - pages) as u64,
            delegated: (self.delegated + pages) as u64,
            ..self
        }
    }

    /// The pool once `pages` that were set aside for a child are available again.
    pub open spec fn unearmarked(self, pages: u64) -> MemoryPool {
        MemoryPool {
            delegating: (self.delegating - pages) as u64,
            available: (self.available + pages) as u64,
            ..self
        }
    }

    /// The pool once the `pages` of a child that is gone are available again.
    pub open spec fn taken_back(self, pages: u64) -> MemoryPool {
        MemoryPool {
            delegated: (self.delegated - pages) as u64,
            available: (self.available + pages) as u64,
            ..self
        }
    }
}

/// The pages of the first `n` pools that are children of pool `p` in phase `phase`.
pub open spec fn owned_by_children(
    pools: Seq<MemoryPool>,
    p: int,
    phase: PoolPhase,
    n: int,
) -> int
    decreases n,
{
    if n <= 0 {
        0
    } else {
        owned_by_children(pools, p, phase, n - 1) + if pools[n - 1].parent == Some(p as usize)
            && pools[n - 1].phase == phase {
            pools[n - 1].total as int
        } else {
            0
        }
    }
}

/// Unless it is gone, pool `i` comes after its parent, which is in use, and lies one level
/// below it; the root lies at level zero.
pub open spec fn parent_ok(pools: Seq<MemoryPool>, i: int) -> bool {
    !(pools[i].phase is Gone) ==> match pools[i].parent {
        Some(p) => p < i && pools[p as int].phase is Active && pools[i].depth
            == pools[p as int].depth + 1,
        None => pools[i].depth == 0,
    }
}

/// What pool `p` has delegated is what its children in use own, and what it has set
/// aside for children is what those being made will own.
pub open spec fn delegation_ok(pools: Seq<MemoryPool>, p: int) -> bool {
    &&& pools[p].delegated == owned_by_children(pools, p, PoolPhase::Active, pools.len() as int)
    &&& pools[p].delegating == owned_by_children(pools, p, PoolPhase::Prepared, pools.len() as int)
}

/// What every operation keeps: all pools are balanced; a parent is in use, comes before
/// its children and lies one level above them; what it has delegated is what its children in use own, and
/// what it has set aside for children is what those being made will own.
pub open spec fn pools_wf(pools: Seq<MemoryPool>) -> bool {
    &&& pools.len() <= usize::MAX
    &&& forall|i: int| 0 <= i < pools.len() ==> (#[trigger] pools[i]).balanced()
    &&& forall|i: int| 0 <= i < pools.len() ==> #[trigger] parent_ok(pools, i)
    &&& forall|p: int| 0 <= p < pools.len() ==> #[trigger] delegation_ok(pools, p)
}

/// Pools that differ in their accounts alone own the same.
proof fn owned_unchanged(
    a: Seq<MemoryPool>,
    b: Seq<MemoryPool>,
    p: int,
    phase: PoolPhase,
    n: int,
)
    requires
        0 <= n <= a.len(),
        n <= b.len(),
        forall|i: int|
            0 <= i < n ==> (#[trigger] a[i]).parent == b[i].parent && a[i].phase == b[i].phase
                && a[i].total == b[i].total,
    ensures
        owned_by_children(a, p, phase, n) == owned_by_children(b, p, phase, n),
    decreases n,
{
    if n > 0 {
        owned_unchanged(a, b, p, phase, n - 1);
        assert(a[n - 1].total == b[n - 1].total);
    }
}

/// A change of one pool's phase changes what children own by that pool alone.
proof fn owned_changed(
    a: Seq<MemoryPool>,
    b: Seq<MemoryPool>,
    c: int,
    p: int,
    phase: PoolPhase,
    n: int,
)
    requires
        0 <= c < n <= a.len(),
        a.len() == b.len(),
        forall|i: int|
            0 <= i < n && i != c ==> (#[trigger] a[i]).parent == b[i].parent && a[i].phase
                == b[i].phase && a[i].total == b[i].total,
    ensures
        owned_by_children(b, p, phase, n) == owned_by_children(a, p, phase, n) - (if a[c].parent
            == Some(p as usize) && a[c].phase == phase {
            a[c].total as int
        } else {
            0
        }) + (if b[c].parent == Some(p as usize) && b[c].phase == phase {
            b[c].total as int
        } else {
            0
        }),
    decreases n,
{
    if c == n - 1 {
        owned_unchanged(a, b, p, phase, n - 1);
    } else {
        owned_changed(a, b, c, p, phase, n - 1);
        assert(a[n - 1].total == b[n - 1].total);
    }
}

/// A child owns no more than all children do.
proof fn owned_at_least(pools: Seq<MemoryPool>, c: int, p: int, phase: PoolPhase, n: int)
    requires
        0 <= c < n <= pools.len(),
        pools[c].parent == Some(p as usize),
        pools[c].phase == phase,
    ensures
        owned_by_children(pools, p, phase, n) >= pools[c].total,
    decreases n,
{
    owned_not_negative(pools, p, phase, n - 1);
    if c < n - 1 {
        owned_at_least(pools, c, p, phase, n - 1);
    }
}

proof fn owned_not_negative(pools: Seq<MemoryPool>, p: int, phase: PoolPhase, n: int)
    ensures
        owned_by_children(pools, p, phase, n) >= 0,
    decreases n,
{
    if n > 0 {
        owned_not_negative(pools, p, phase, n - 1);
    }
}

/// No pool is a child of a pool that comes later.
proof fn owned_by_late(pools: Seq<MemoryPool>, p: int, phase: PoolPhase, n: int)
    requires
        0 <= n <= pools.len(),
        p <= usize::MAX,
        phase !is Gone,
        forall|i: int| 0 <= i < n ==> #[trigger] parent_ok(pools, i),
        n <= p,
    ensures
        owned_by_children(pools, p, phase, n) == 0,
    decreases n,
{
    if n > 0 {
        assert(parent_ok(pools, n - 1));
        owned_by_late(pools, p, phase, n - 1);
    }
}

/// A child pool of `pages` under pool `p`, with all of them available.
pub open spec fn new_child(
    pools: Seq<MemoryPool>,
    p: usize,
    identity: Koid,
    pages: u64,
    phase: PoolPhase,
) -> MemoryPool {
    MemoryPool {
        identity,
        parent: Some(p),
        phase,
        total: pages,
        available: pages,
        charging: 0,
        delegating: 0,
        allocated: 0,
        delegated: 0,
        depth: (pools[p as int].depth + 1) as u32,
    }
}

/// All pools of the machine.
pub struct PoolTree {
    pools: Vec<MemoryPool>,
}

/// What a query tells of pool `p`.
pub open spec fn told(pools: Seq<MemoryPool>, p: int) -> MemoryPoolSnapshot {
    let pool = pools[p];
    MemoryPoolSnapshot {
        identity: pool.identity,
        parent_identity: match pool.parent {
            Some(q) => pools[q as int].identity,
            None => 0,
        },
        total: pool.total,
        available: pool.available,
        reserved: (pool.charging + pool.delegating) as u64,
        allocated: pool.allocated,
        delegated: pool.delegated,
        depth: pool.depth,
    }
}

impl PoolTree {
    pub closed spec fn view(&self) -> Seq<MemoryPool> {
        self.pools@
    }

    /// What every operation keeps.
    pub open spec fn wf(&self) -> bool {
        pools_wf(self@)
    }

    /// The root pool, which owns `pages`.
    pub fn initialize_root(identity: Koid, pages: u64) -> (r: PoolTree)
        requires
            pages > 0,
        ensures
            r.wf(),
            r@ == seq![
                MemoryPool {
                    identity,
                    parent: None,
                    phase: PoolPhase::Active,
                    total: pages,
                    available: pages,
                    charging: 0,
                    delegating: 0,
                    allocated: 0,
                    delegated: 0,
                    depth: 0,
                },
            ],
    {
        let mut pools: Vec<MemoryPool> = Vec::new();
        pools.push(
            MemoryPool {
                identity,
                parent: None,
                phase: PoolPhase::Active,
                total: pages,
                available: pages,
                charging: 0,
                delegating: 0,
                allocated: 0,
                delegated: 0,
                depth: 0,
            },
        );
        proof {
            reveal_with_fuel(owned_by_children, 2);
            assert(parent_ok(pools@, 0));
            assert(delegation_ok(pools@, 0));
        }
        PoolTree { pools }
    }

    /// Writes one account; who owns what does not change.
    fn set_account(&mut self, p: usize, pool: MemoryPool)
        requires
            old(self).wf(),
            p < old(self)@.len(),
            pool.balanced(),
            pool.parent == old(self)@[p as int].parent,
            pool.phase == old(self)@[p as int].phase,
            pool.depth == old(self)@[p as int].depth,
            pool.total == old(self)@[p as int].total,
            pool.delegated == old(self)@[p as int].delegated,
            pool.delegating == old(self)@[p as int].delegating,
        ensures
            final(self).wf(),
            final(self)@ == old(self)@.update(p as int, pool),
    {
        let ghost before = self@;
        self.pools.set(p, pool);
        proof {
            let after = self@;
            assert forall|i: int| 0 <= i < after.len() implies #[trigger] parent_ok(after, i) by {
                assert(parent_ok(before, i));
            }
            assert forall|q: int| 0 <= q < after.len() implies #[trigger] delegation_ok(
                after,
                q,
            ) by {
                assert(delegation_ok(before, q));
                owned_unchanged(before, after, q, PoolPhase::Active, after.len() as int);
                owned_unchanged(before, after, q, PoolPhase::Prepared, after.len() as int);
            }
        }
    }

    /// Sets pages aside for a charge.
    pub fn reserve_charge(&mut self, p: usize, pages: u64) -> (r: Result<(), PoolError>)
        requires
            old(self).wf(),
            p < old(self)@.len(),
            old(self)@[p as int].phase is Active,
        ensures
            final(self).wf(),
            r == if pages == 0 {
                Err::<(), _>(PoolError::ZeroAmount)
            } else if pages > old(self)@[p as int].available {
                Err(PoolError::QuotaExceeded)
            } else {
                Ok(())
            },
            final(self)@ == if r is Ok {
                old(self)@.update(p as int, old(self)@[p as int].reserved(pages))
            } else {
                old(self)@
            },
    {
        let pool = self.pools[p];
        if pages == 0 {
            return Err(PoolError::ZeroAmount);
        }
        if pages > pool.available {
            return Err(PoolError::QuotaExceeded);
        }
        self.set_account(
            p,
            MemoryPool {
                available: pool.available - pages,
                charging: pool.charging + pages,
                ..pool
            },
        );
        Ok(())
    }

    /// Turns pages set aside for a charge into allocated ones.
    pub fn commit_charge(&mut self, p: usize, pages: u64)
        requires
            old(self).wf(),
            p < old(self)@.len(),
            pages <= old(self)@[p as int].charging,
        ensures
            final(self).wf(),
            final(self)@ == old(self)@.update(p as int, old(self)@[p as int].charged(pages)),
    {
        let pool = self.pools[p];
        self.set_account(
            p,
            MemoryPool {
                charging: pool.charging - pages,
                allocated: pool.allocated + pages,
                ..pool
            },
        );
    }

    /// Makes pages set aside for a charge available again.
    pub fn rollback_charge(&mut self, p: usize, pages: u64)
        requires
            old(self).wf(),
            p < old(self)@.len(),
            pages <= old(self)@[p as int].charging,
        ensures
            final(self).wf(),
            final(self)@ == old(self)@.update(p as int, old(self)@[p as int].unreserved(pages)),
    {
        let pool = self.pools[p];
        self.set_account(
            p,
            MemoryPool {
                charging: pool.charging - pages,
                available: pool.available + pages,
                ..pool
            },
        );
    }

    /// Makes allocated pages available again.
    pub fn return_charge(&mut self, p: usize, pages: u64)
        requires
            old(self).wf(),
            p < old(self)@.len(),
            pages <= old(self)@[p as int].allocated,
        ensures
            final(self).wf(),
            final(self)@ == old(self)@.update(p as int, old(self)@[p as int].refunded(pages)),
    {
        let pool = self.pools[p];
        self.set_account(
            p,
            MemoryPool {
                allocated: pool.allocated - pages,
                available: pool.available + pages,
                ..pool
            },
        );
    }

    /// Sets pages of pool `p` aside and prepares a child that will own them. The child
    /// cannot be used yet.
    pub fn prepared_child(&mut self, p: usize, identity: Koid, pages: u64, depth_limit: u32) -> (r:
        Result<usize, PoolError>)
        requires
            old(self).wf(),
            p < old(self)@.len(),
            old(self)@[p as int].phase is Active,
        ensures
            final(self).wf(),
            r == if pages == 0 {
                Err::<usize, _>(PoolError::ZeroAmount)
            } else if pages > old(self)@[p as int].available {
                Err(PoolError::QuotaExceeded)
            } else if old(self)@[p as int].depth >= depth_limit {
                Err(PoolError::DepthLimit)
            } else {
                Ok(old(self)@.len() as usize)
            },
            r is Err ==> final(self)@ == old(self)@,
            r is Ok ==> final(self)@ == old(self)@.update(
                p as int,
                old(self)@[p as int].earmarked(pages),
            ).push(
                new_child(old(self)@, p, identity, pages, PoolPhase::Prepared),
            ),
    {
        let ghost before = self@;
        let pool = self.pools[p];
        if pages == 0 {
            return Err(PoolError::ZeroAmount);
        }
        if pages > pool.available {
            return Err(PoolError::QuotaExceeded);
        }
        if pool.depth >= depth_limit {
            return Err(PoolError::DepthLimit);
        }
        let position: usize = self.pools.len();
        self.pools.set(
            p,
            MemoryPool {
                available: pool.available - pages,
                delegating: pool.delegating + pages,
                ..pool
            },
        );
        self.pools.push(
            MemoryPool {
                identity,
                parent: Some(p),
                phase: PoolPhase::Prepared,
                total: pages,
                available: pages,
                charging: 0,
                delegating: 0,
                allocated: 0,
                delegated: 0,
                depth: pool.depth + 1,
            },
        );
        proof {
            let after = self@;
            let n = before.len() as int;
            assert(self.pools.len() == after.len());
            assert forall|i: int| 0 <= i < after.len() implies #[trigger] parent_ok(after, i) by {
                if i < n {
                    assert(parent_ok(before, i));
                }
            }
            assert forall|q: int| 0 <= q < after.len() implies #[trigger] delegation_ok(
                after,
                q,
            ) by {
                owned_unchanged(before, after, q, PoolPhase::Active, n);
                owned_unchanged(before, after, q, PoolPhase::Prepared, n);
                if q < n {
                    assert(delegation_ok(before, q));
                } else {
                    owned_by_late(before, q, PoolPhase::Active, n);
                    owned_by_late(before, q, PoolPhase::Prepared, n);
                }
            }
        }
        Ok(position)
    }

    /// Moves child `c` and the account of its parent to a new phase.
    fn move_child(&mut self, c: usize, child: MemoryPool, parent: MemoryPool)
        requires
            old(self).wf(),
            c < old(self)@.len(),
            !(old(self)@[c as int].phase is Gone),
            old(self)@[c as int].parent is Some,
            child.parent == old(self)@[c as int].parent,
            child.depth == old(self)@[c as int].depth,
            child.total == old(self)@[c as int].total,
            child.balanced(),
            parent.balanced(),
            child.delegated == old(self)@[c as int].delegated,
            child.delegating == old(self)@[c as int].delegating,
            child.phase is Gone ==> child.delegated == 0 && child.delegating == 0,
            child.phase is Prepared ==> child.delegated == 0 && child.delegating == 0,
            old(self)@[c as int].phase is Prepared ==> child.delegated == 0 && child.delegating
                == 0,
            ({
                let p = old(self)@[c as int].parent->0 as int;
                let before = old(self)@[p];
                let phase = old(self)@[c as int].phase;
                &&& parent.parent == before.parent
                &&& parent.phase == before.phase
                &&& parent.depth == before.depth
                &&& parent.total == before.total
                &&& parent.delegated == before.delegated - (if phase is Active {
                    child.total as int
                } else {
                    0
                }) + (if child.phase is Active {
                    child.total as int
                } else {
                    0
                })
                &&& parent.delegating == before.delegating - (if phase is Prepared {
                    child.total as int
                } else {
                    0
                }) + (if child.phase is Prepared {
                    child.total as int
                } else {
                    0
                })
            }),
            forall|i: int|
                0 <= i < old(self)@.len() && !((#[trigger] old(self)@[i]).phase is Gone) && old(
                    self,
                )@[i].parent == Some(c) ==> child.phase is Active,
        ensures
            final(self).wf(),
            final(self)@ == old(self)@.update(c as int, child).update(
                old(self)@[c as int].parent->0 as int,
                parent,
            ),
    {
        let ghost before = self@;
        assert(parent_ok(before, c as int));
        let p: usize = self.pools[c].parent.unwrap();
        self.pools.set(c, child);
        self.pools.set(p, parent);
        proof {
            let after = self@;
            let n = after.len() as int;
            assert(p < c);
            assert forall|i: int| 0 <= i < n implies #[trigger] parent_ok(after, i) by {
                assert(parent_ok(before, i));
            }
            assert forall|q: int| 0 <= q < n implies #[trigger] delegation_ok(after, q) by {
                assert(delegation_ok(before, q));
                owned_changed(before, after, c as int, q, PoolPhase::Active, n);
                owned_changed(before, after, c as int, q, PoolPhase::Prepared, n);
            }
        }
    }

    /// Puts a prepared child in use: the pages set aside for it are now delegated.
    pub fn commit_prepared(&mut self, c: usize)
        requires
            old(self).wf(),
            c < old(self)@.len(),
            old(self)@[c as int].phase is Prepared,
            old(self)@[c as int].parent is Some,
        ensures
            final(self).wf(),
            ({
                let p = old(self)@[c as int].parent->0 as int;
                let pages = old(self)@[c as int].total;
                &&& p < c
                &&& final(self)@ == old(self)@.update(
                    c as int,
                    MemoryPool { phase: PoolPhase::Active, ..old(self)@[c as int] },
                ).update(p, old(self)@[p].handed_down(pages))
            }),
    {
        let child = self.pools[c];
        assert(parent_ok(self@, c as int));
        let p: usize = child.parent.unwrap();
        let parent = self.pools[p];
        proof {
            assert(delegation_ok(self@, p as int));
            prepared_has_no_children(self@, c as int);
            owned_at_least(self@, c as int, p as int, PoolPhase::Prepared, self@.len() as int);
        }
        self.move_child(
            c,
            MemoryPool { phase: PoolPhase::Active, ..child },
            MemoryPool {
                delegating: parent.delegating - child.total,
                delegated: parent.delegated + child.total,
                ..parent
            },
        );
    }

    /// Gives a prepared child up: its pages are available in the parent again.
    pub fn rollback_prepared(&mut self, c: usize)
        requires
            old(self).wf(),
            c < old(self)@.len(),
            old(self)@[c as int].phase is Prepared,
            old(self)@[c as int].parent is Some,
        ensures
            final(self).wf(),
            ({
                let p = old(self)@[c as int].parent->0 as int;
                let pages = old(self)@[c as int].total;
                &&& p < c
                &&& final(self)@ == old(self)@.update(
                    c as int,
                    MemoryPool { phase: PoolPhase::Gone, ..old(self)@[c as int] },
                ).update(p, old(self)@[p].unearmarked(pages))
            }),
    {
        let child = self.pools[c];
        assert(parent_ok(self@, c as int));
        let p: usize = child.parent.unwrap();
        let parent = self.pools[p];
        proof {
            assert(delegation_ok(self@, p as int));
            prepared_has_no_children(self@, c as int);
            owned_at_least(self@, c as int, p as int, PoolPhase::Prepared, self@.len() as int);
        }
        self.move_child(
            c,
            MemoryPool { phase: PoolPhase::Gone, ..child },
            MemoryPool {
                delegating: parent.delegating - child.total,
                available: parent.available + child.total,
                ..parent
            },
        );
    }

    /// A pool in use goes with its last reference, when all its pages are available:
    /// they flow back to the parent. The root has no parent and keeps them.
    pub fn drop_pool(&mut self, c: usize)
        requires
            old(self).wf(),
            c < old(self)@.len(),
            old(self)@[c as int].phase is Active,
            old(self)@[c as int].quiet(),
            old(self)@[c as int].parent is Some,
            forall|i: int|
                0 <= i < old(self)@.len() && (#[trigger] old(self)@[i]).parent == Some(c) ==> old(
                    self,
                )@[i].phase is Gone,
        ensures
            final(self).wf(),
            ({
                let p = old(self)@[c as int].parent->0 as int;
                let pages = old(self)@[c as int].total;
                &&& p < c
                &&& final(self)@ == old(self)@.update(
                    c as int,
                    MemoryPool { phase: PoolPhase::Gone, ..old(self)@[c as int] },
                ).update(p, old(self)@[p].taken_back(pages))
            }),
    {
        let child = self.pools[c];
        assert(parent_ok(self@, c as int));
        let p: usize = child.parent.unwrap();
        let parent = self.pools[p];
        proof {
            assert(delegation_ok(self@, p as int));
            owned_at_least(self@, c as int, p as int, PoolPhase::Active, self@.len() as int);
        }
        self.move_child(
            c,
            MemoryPool { phase: PoolPhase::Gone, ..child },
            MemoryPool {
                delegated: parent.delegated - child.total,
                available: parent.available + child.total,
                ..parent
            },
        );
    }

    /// What a query of pool `p` tells.
    pub fn snapshot(&self, p: usize) -> (r: MemoryPoolSnapshot)
        requires
            self.wf(),
            p < self@.len(),
            self@[p as int].phase is Active,
        ensures
            r == told(self@, p as int),
            r.available + r.reserved + r.allocated + r.delegated == r.total,
    {
        let pool = self.pools[p];
        assert(parent_ok(self@, p as int));
        let parent_identity: Koid = match pool.parent {
            Some(q) => self.pools[q].identity,
            None => 0,
        };
        MemoryPoolSnapshot {
            identity: pool.identity,
            parent_identity,
            total: pool.total,
            available: pool.available,
            reserved: pool.charging + pool.delegating,
            allocated: pool.allocated,
            delegated: pool.delegated,
            depth: pool.depth,
        }
    }

    /// Derives a child pool of `pages` from pool `p`, the one that `found` names (a
    /// lookup that demands the right to create). `permit` is what asking for its
    /// metadata gave, `identity` its identity if one could be minted, `room` whether
    /// there is memory for it, and `installed` what publishing its handle gave. A
    /// failure leaves the accounts as they were; a child that was prepared is left
    /// behind as a pool that is gone.
    pub fn derive(
        &mut self,
        p: usize,
        found: Result<ProcessHandleEntry, TableError>,
        pages: u64,
        rights: Rights,
        permit: Result<(), SystemCallError>,
        identity: Option<Koid>,
        depth_limit: u32,
        room: bool,
        installed: Result<(), SystemCallError>,
    ) -> (r: Result<usize, SystemCallError>)
        requires
            old(self).wf(),
            p < old(self)@.len(),
            old(self)@[p as int].phase is Active,
        ensures
            final(self).wf(),
            ({
                let resolved = handle::resolve_result(
                    found,
                    ObjectKind::MemoryPool,
                    HandleRole::MemoryPool,
                );
                let parent = old(self)@[p as int];
                r == if !rights::known(rights) {
                    Err::<usize, _>(SystemCallError::RightsDenied)
                } else if resolved is Err {
                    Err(resolved->Err_0)
                } else if !rights::subset(rights, resolved->Ok_0.rights) {
                    Err(SystemCallError::RightsDenied)
                } else if permit is Err {
                    Err(permit->Err_0)
                } else if identity is None {
                    Err(SystemCallError::ReachLimit)
                } else if pages == 0 {
                    Err(SystemCallError::IllegalArgument)
                } else if pages > parent.available {
                    Err(SystemCallError::QuotaExceeded)
                } else if parent.depth >= depth_limit {
                    Err(SystemCallError::ReachLimit)
                } else if !room {
                    Err(SystemCallError::OutOfMemory)
                } else if !handle::may_enter(
                    ObjectKind::MemoryPool,
                    HandleRole::MemoryPool,
                    rights,
                ) {
                    Err(SystemCallError::RightsDenied)
                } else if installed is Err {
                    Err(installed->Err_0)
                } else {
                    Ok(old(self)@.len() as usize)
                }
            }),
            ({
                let resolved = handle::resolve_result(
                    found,
                    ObjectKind::MemoryPool,
                    HandleRole::MemoryPool,
                );
                let parent = old(self)@[p as int];
                let prepared = rights::known(rights) && resolved is Ok && rights::subset(
                    rights,
                    resolved->Ok_0.rights,
                ) && permit is Ok && identity is Some && 0 < pages <= parent.available
                    && parent.depth < depth_limit;
                final(self)@ == if r is Ok {
                    old(self)@.update(
                        p as int,
                        parent.earmarked(pages).handed_down(pages),
                    ).push(new_child(old(self)@, p, identity->0, pages, PoolPhase::Active))
                } else if prepared {
                    old(self)@.push(new_child(old(self)@, p, identity->0, pages, PoolPhase::Gone))
                } else {
                    old(self)@
                }
            }),
    {
        let ghost before = self@;
        if !rights::is_known(rights) {
            return Err(SystemCallError::RightsDenied);
        }
        let source = match handle::resolve(found, ObjectKind::MemoryPool, HandleRole::MemoryPool) {
            Err(error) => {
                return Err(error);
            },
            Ok(source) => source,
        };
        if !rights::is_subset_of(rights, source.rights) {
            return Err(SystemCallError::RightsDenied);
        }
        match permit {
            Err(error) => {
                return Err(error);
            },
            Ok(_) => {},
        }
        let koid = match identity {
            None => {
                return Err(SystemCallError::ReachLimit);
            },
            Some(koid) => koid,
        };
        let child: usize = match self.prepared_child(p, koid, pages, depth_limit) {
            Err(error) => {
                return Err(map_pool_error(error));
            },
            Ok(child) => child,
        };
        let ghost gone = before.push(new_child(before, p, koid, pages, PoolPhase::Gone));
        if !room {
            self.rollback_prepared(child);
            assert(self@ =~= gone);
            return Err(SystemCallError::OutOfMemory);
        }
        match handle::entry(koid, ObjectKind::MemoryPool, HandleRole::MemoryPool, rights) {
            Err(error) => {
                self.rollback_prepared(child);
                assert(self@ =~= gone);
                return Err(handle::map_error(error));
            },
            Ok(_) => {},
        }
        match installed {
            Err(error) => {
                self.rollback_prepared(child);
                assert(self@ =~= gone);
                return Err(error);
            },
            Ok(_) => {},
        }
        self.commit_prepared(child);
        Ok(child)
    }
}

/// A pool that is not in use has no children, and so owes them nothing.
proof fn prepared_has_no_children(pools: Seq<MemoryPool>, c: int)
    requires
        pools_wf(pools),
        0 <= c < pools.len(),
        pools[c].phase is Prepared,
    ensures
        forall|i: int|
            0 <= i < pools.len() && !((#[trigger] pools[i]).phase is Gone) ==> pools[i].parent
                != Some(c as usize),
        pools[c].delegated == 0,
        pools[c].delegating == 0,
{
    assert forall|i: int|
        0 <= i < pools.len() && !((#[trigger] pools[i]).phase is Gone) implies pools[i].parent
        != Some(c as usize) by {
        assert(parent_ok(pools, i));
    }
    assert(delegation_ok(pools, c));
    owned_by_none(pools, c, PoolPhase::Active, pools.len() as int);
    owned_by_none(pools, c, PoolPhase::Prepared, pools.len() as int);
}

proof fn owned_by_none(pools: Seq<MemoryPool>, p: int, phase: PoolPhase, n: int)
    requires
        0 <= n <= pools.len(),
        phase !is Gone,
        forall|i: int|
            0 <= i < n && !((#[trigger] pools[i]).phase is Gone) ==> pools[i].parent != Some(
                p as usize,
            ),
    ensures
        owned_by_children(pools, p, phase, n) == 0,
    decreases n,
{
    if n > 0 {
        owned_by_none(pools, p, phase, n - 1);
    }
}

/// A pool in use with all pages available has no children in use or being made.
pub proof fn quiet_pool_has_no_children(pools: Seq<MemoryPool>, c: int, i: int)
    requires
        pools_wf(pools),
        0 <= c < pools.len(),
        pools[c].quiet(),
        0 <= i < pools.len(),
        pools[i].parent == Some(c as usize),
        pools[i].total > 0,
    ensures
        pools[i].phase is Gone,
{
    assert(delegation_ok(pools, c));
    if !(pools[i].phase is Gone) {
        owned_at_least(pools, i, c, pools[i].phase, pools.len() as int);
    }
}

/// Tells a caller of pool `p`, the one that `found` names (a lookup that demands the right to
/// read). `output` says whether the answer can be written where the caller wants it.
pub fn query(
    tree: &PoolTree,
    p: usize,
    found: Result<ProcessHandleEntry, TableError>,
    output: Result<(), SystemCallError>,
) -> (r: Result<MemoryPoolSnapshot, SystemCallError>)
    requires
        tree.wf(),
        p < tree@.len(),
        tree@[p as int].phase is Active,
    ensures
        r == match handle::resolve_result(found, ObjectKind::MemoryPool, HandleRole::MemoryPool) {
            Err(error) => Err::<MemoryPoolSnapshot, _>(error),
            Ok(_) => match output {
                Err(error) => Err(error),
                Ok(_) => Ok(told(tree@, p as int)),
            },
        },
{
    match handle::resolve(found, ObjectKind::MemoryPool, HandleRole::MemoryPool) {
        Err(error) => {
            return Err(error);
        },
        Ok(_) => {},
    }
    let snapshot = tree.snapshot(p);
    match output {
        Err(error) => Err(error),
        Ok(_) => Ok(snapshot),
    }
}

/// Pages flow round: what is set aside for a charge comes back as it was, before it is charged
/// or after, and at every point each page is accounted for once. Only the two accounts that it
/// flows between change.
pub proof fn charge_flows_back(pool: MemoryPool, pages: u64)
    requires
        pool.balanced(),
        pages <= pool.available,
    ensures
        ({
            let reserved = pool.reserved(pages);
            let charged = reserved.charged(pages);
            &&& reserved.balanced() && charged.balanced()
            &&& reserved.available == pool.available - pages
            &&& reserved.charging == pool.charging + pages
            &&& charged.available == pool.available - pages
            &&& charged.charging == pool.charging
            &&& charged.allocated == pool.allocated + pages
            &&& reserved.allocated == pool.allocated
            &&& reserved.unreserved(pages) == pool
            &&& charged.refunded(pages) == pool
            &&& (charged.total, charged.delegating, charged.delegated) == (
                pool.total,
                pool.delegating,
                pool.delegated,
            )
            &&& (charged.identity, charged.parent, charged.phase, charged.depth) == (
                pool.identity,
                pool.parent,
                pool.phase,
                pool.depth,
            )
        }),
{
}

/// Delegated pages flow back: what is set aside for a child, and what a child in use owns, comes
/// back as it was. The child's pages are then the parent's no more until it goes.
pub proof fn delegation_flows_back(parent: MemoryPool, pages: u64)
    requires
        parent.balanced(),
        pages <= parent.available,
    ensures
        ({
            let earmarked = parent.earmarked(pages);
            let handed = earmarked.handed_down(pages);
            &&& earmarked.balanced() && handed.balanced()
            &&& earmarked.available == parent.available - pages
            &&& earmarked.delegating == parent.delegating + pages
            &&& earmarked.delegated == parent.delegated
            &&& handed.available == parent.available - pages
            &&& handed.delegating == parent.delegating
            &&& handed.delegated == parent.delegated + pages
            &&& earmarked.unearmarked(pages) == parent
            &&& handed.taken_back(pages) == parent
            &&& (handed.total, handed.charging, handed.allocated) == (
                parent.total,
                parent.charging,
                parent.allocated,
            )
            &&& (handed.identity, handed.parent, handed.phase, handed.depth) == (
                parent.identity,
                parent.parent,
                parent.phase,
                parent.depth,
            )
        }),
{
}

/// An owner of allocated pages of a pool.
#[derive(Clone, Copy, Debug, PartialEq, Eq, Structural)]
pub struct MemoryCharge {
    pub pool: usize,
    pub pages: u64,
}

impl MemoryCharge {
    /// Splits `pages` off.
    pub fn split(&mut self, pages: u64) -> (r: Result<MemoryCharge, PoolError>)
        ensures
            r == if pages == 0 || pages >= old(self).pages {
                Err::<MemoryCharge, _>(PoolError::InvalidSplit)
            } else {
                Ok(MemoryCharge { pool: old(self).pool, pages })
            },
            *final(self) == if r is Ok {
                MemoryCharge { pages: (old(self).pages - pages) as u64, ..*old(self) }
            } else {
                *old(self)
            },
    {
        if pages == 0 || pages >= self.pages {
            return Err(PoolError::InvalidSplit);
        }
        self.pages = self.pages - pages;
        Ok(MemoryCharge { pool: self.pool, pages })
    }
}

/// A new child owns its pages, all of them available, one level below its parent.
pub proof fn children_start_with_all_their_pages(
    pools: Seq<MemoryPool>,
    p: usize,
    identity: Koid,
    pages: u64,
    phase: PoolPhase,
)
    requires
        p < pools.len(),
        pools[p as int].depth < u32::MAX,
    ensures
        ({
            let child = new_child(pools, p, identity, pages, phase);
            &&& child.balanced() && child.quiet()
            &&& child.total == pages && child.available == pages
            &&& child.parent == Some(p) && child.identity == identity && child.phase == phase
            &&& child.depth == pools[p as int].depth + 1
        }),
{
}

/// A query tells of the pool itself: its own numbers, which add up to all of its pages, and the
/// identity of its parent.
pub proof fn queries_tell_the_accounts(pools: Seq<MemoryPool>, p: int)
    requires
        pools_wf(pools),
        0 <= p < pools.len(),
    ensures
        ({
            let answer = told(pools, p);
            &&& answer.identity == pools[p].identity && answer.total == pools[p].total
            &&& answer.available == pools[p].available && answer.allocated == pools[p].allocated
            &&& answer.delegated == pools[p].delegated && answer.depth == pools[p].depth
            &&& answer.available + answer.reserved + answer.allocated + answer.delegated
                == answer.total
            &&& pools[p].parent is None ==> answer.parent_identity == 0
            &&& pools[p].parent matches Some(q) ==> answer.parent_identity
                == pools[q as int].identity
        }),
{
}

/// What is counted for the children of a pool covers each of them: two children own no more
/// together than is counted, and nothing is counted without a child.
pub proof fn every_child_is_counted(
    pools: Seq<MemoryPool>,
    p: int,
    phase: PoolPhase,
    n: int,
    i: int,
    j: int,
)
    requires
        0 <= i < j < n <= pools.len(),
    ensures
        pools[i].parent == Some(p as usize) && pools[i].phase == phase && pools[j].parent == Some(
            p as usize,
        ) && pools[j].phase == phase ==> owned_by_children(pools, p, phase, n) >= pools[i].total
            + pools[j].total,
        (forall|k: int|
            0 <= k < n ==> (#[trigger] pools[k]).parent != Some(p as usize) || pools[k].phase
                != phase) ==> owned_by_children(pools, p, phase, n) == 0,
    decreases n,
{
    if n - 1 > j {
        every_child_is_counted(pools, p, phase, n - 1, i, j);
    } else {
        one_child_is_counted(pools, p, phase, n - 1, i);
    }
}

proof fn one_child_is_counted(pools: Seq<MemoryPool>, p: int, phase: PoolPhase, n: int, i: int)
    requires
        0 <= n <= pools.len(),
    ensures
        owned_by_children(pools, p, phase, n) >= 0,
        0 <= i < n && pools[i].parent == Some(p as usize) && pools[i].phase == phase
            ==> owned_by_children(pools, p, phase, n) >= pools[i].total,
        (forall|k: int|
            0 <= k < n ==> (#[trigger] pools[k]).parent != Some(p as usize) || pools[k].phase
                != phase) ==> owned_by_children(pools, p, phase, n) == 0,
    decreases n,
{
    if n > 0 {
        one_child_is_counted(pools, p, phase, n - 1, i);
    }
}

/// Refusals of a pool: only a pool without enough left is a question of quota; depth and
/// identities are limits; what the caller asked for can be wrong; all else is the kernel's fault.
pub proof fn pool_refusals_keep_their_sense(error: PoolError)
    ensures
        pool_reported(error) == SystemCallError::QuotaExceeded <==> error is QuotaExceeded,
        pool_reported(error) == SystemCallError::ReachLimit <==> error is DepthLimit
            || error is IdentityExhausted,
        pool_reported(error) == SystemCallError::IllegalArgument <==> error is ZeroAmount
            || error is InvalidSplit || error is InvalidTopology,
        pool_reported(error) == SystemCallError::InternalError <==> error is ArithmeticOverflow
            || error is WrongOwner || error is InvariantViolation,
{
}

} // verus!
