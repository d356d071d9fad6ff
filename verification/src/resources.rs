//! Admission of kernel metadata: how many cores, address spaces and shells there may
//! be, over all and per process.
use vstd::prelude::*;

use crate::error::SystemCallError;
use crate::memory_pool;
use crate::memory_pool::FundError;

verus! {

pub const SPONSOR_GLOBAL_LIMIT: usize = 4_096;

pub const POOL_CORE_GLOBAL_LIMIT: usize = 4_096;

pub const ADDRESS_SPACE_GLOBAL_LIMIT: usize = 4_096;

pub const BUILDER_GLOBAL_LIMIT: usize = 4_096;

pub const CONTROL_GLOBAL_LIMIT: usize = 4_096;

pub const POOL_CORES_PER_SPONSOR: usize = 1_024;

pub const ADDRESS_SPACES_PER_SPONSOR: usize = 1;

pub const BUILDERS_PER_SPONSOR: usize = 1;

pub const CONTROLS_PER_SPONSOR: usize = 1;

/// How many of a limited number of places are taken.
#[derive(Clone, Copy, Debug, PartialEq, Eq, Structural)]
pub struct Counter {
    pub used: usize,
    pub limit: usize,
}

impl Counter {
    pub open spec fn wf(self) -> bool {
        self.used <= self.limit
    }

    /// The same with one place more taken.
    pub open spec fn taken(self) -> Counter {
        Counter { used: (self.used + 1) as usize, ..self }
    }

    /// The same with one place given back.
    pub open spec fn returned(self) -> Counter {
        Counter { used: (self.used - 1) as usize, ..self }
    }

    pub fn new(limit: usize) -> (r: Counter)
        ensures
            r == (Counter { used: 0, limit }),
            r.wf(),
    {
        Counter { used: 0, limit }
    }

    /// Takes a place, if one is free.
    pub fn try_acquire(&mut self) -> (r: bool)
        requires
            old(self).wf(),
        ensures
            final(self).wf(),
            r == (old(self).used < old(self).limit),
            *final(self) == if r {
                old(self).taken()
            } else {
                *old(self)
            },
    {
        if self.used >= self.limit {
            return false;
        }
        self.used = self.used + 1;
        true
    }

    /// Gives a place back.
    pub fn release(&mut self)
        requires
            old(self).wf(),
            old(self).used > 0,
        ensures
            final(self).wf(),
            *final(self) == old(self).returned(),
    {
        self.used = self.used - 1;
    }
}

/// What a process may create metadata of.
#[derive(Clone, Copy, Debug, PartialEq, Eq, Structural)]
pub enum Metadata {
    PoolCore,
    AddressSpace,
    Builder,
    Control,
}

/// One place per kind of metadata.
#[derive(Clone, Copy, Debug, PartialEq, Eq, Structural)]
pub struct Counters {
    pub pool_cores: Counter,
    pub address_spaces: Counter,
    pub builders: Counter,
    pub controls: Counter,
}

impl Counters {
    pub open spec fn get(self, kind: Metadata) -> Counter {
        match kind {
            Metadata::PoolCore => self.pool_cores,
            Metadata::AddressSpace => self.address_spaces,
            Metadata::Builder => self.builders,
            Metadata::Control => self.controls,
        }
    }

    pub open spec fn with(self, kind: Metadata, counter: Counter) -> Counters {
        match kind {
            Metadata::PoolCore => Counters { pool_cores: counter, ..self },
            Metadata::AddressSpace => Counters { address_spaces: counter, ..self },
            Metadata::Builder => Counters { builders: counter, ..self },
            Metadata::Control => Counters { controls: counter, ..self },
        }
    }

    pub open spec fn wf(self) -> bool {
        self.pool_cores.wf() && self.address_spaces.wf() && self.builders.wf() && self.controls.wf()
    }

    fn try_acquire(&mut self, kind: Metadata) -> (r: bool)
        requires
            old(self).wf(),
        ensures
            final(self).wf(),
            r == (old(self).get(kind).used < old(self).get(kind).limit),
            *final(self) == if r {
                old(self).with(kind, old(self).get(kind).taken())
            } else {
                *old(self)
            },
    {
        match kind {
            Metadata::PoolCore => self.pool_cores.try_acquire(),
            Metadata::AddressSpace => self.address_spaces.try_acquire(),
            Metadata::Builder => self.builders.try_acquire(),
            Metadata::Control => self.controls.try_acquire(),
        }
    }

    fn release(&mut self, kind: Metadata)
        requires
            old(self).wf(),
            old(self).get(kind).used > 0,
        ensures
            final(self).wf(),
            *final(self) == old(self).with(kind, old(self).get(kind).returned()),
    {
        match kind {
            Metadata::PoolCore => self.pool_cores.release(),
            Metadata::AddressSpace => self.address_spaces.release(),
            Metadata::Builder => self.builders.release(),
            Metadata::Control => self.controls.release(),
        }
    }
}

/// The places of the whole machine.
#[derive(Clone, Copy, Debug, PartialEq, Eq, Structural)]
pub struct MetadataAdmission {
    pub sponsors: Counter,
    pub kinds: Counters,
}

impl MetadataAdmission {
    pub open spec fn wf(self) -> bool {
        self.sponsors.wf() && self.kinds.wf()
    }

    /// All places free.
    pub fn init() -> (r: MetadataAdmission)
        ensures
            r.wf(),
            r.sponsors == (Counter { used: 0, limit: SPONSOR_GLOBAL_LIMIT }),
            r.kinds == (Counters {
                pool_cores: Counter { used: 0, limit: POOL_CORE_GLOBAL_LIMIT },
                address_spaces: Counter { used: 0, limit: ADDRESS_SPACE_GLOBAL_LIMIT },
                builders: Counter { used: 0, limit: BUILDER_GLOBAL_LIMIT },
                controls: Counter { used: 0, limit: CONTROL_GLOBAL_LIMIT },
            }),
    {
        MetadataAdmission {
            sponsors: Counter::new(SPONSOR_GLOBAL_LIMIT),
            kinds: Counters {
                pool_cores: Counter::new(POOL_CORE_GLOBAL_LIMIT),
                address_spaces: Counter::new(ADDRESS_SPACE_GLOBAL_LIMIT),
                builders: Counter::new(BUILDER_GLOBAL_LIMIT),
                controls: Counter::new(CONTROL_GLOBAL_LIMIT),
            },
        }
    }

    /// Takes a place for a pool that no process sponsors.
    pub fn primordial(&mut self) -> (r: Result<(), SystemCallError>)
        requires
            old(self).wf(),
        ensures
            final(self).wf(),
            r == if old(self).kinds.pool_cores.used < old(self).kinds.pool_cores.limit {
                Ok::<(), SystemCallError>(())
            } else {
                Err(SystemCallError::ReachLimit)
            },
            *final(self) == if r is Ok {
                MetadataAdmission {
                    kinds: old(self).kinds.with(
                        Metadata::PoolCore,
                        old(self).kinds.pool_cores.taken(),
                    ),
                    ..*old(self)
                }
            } else {
                *old(self)
            },
    {
        if self.kinds.try_acquire(Metadata::PoolCore) {
            Ok(())
        } else {
            Err(SystemCallError::ReachLimit)
        }
    }
}

/// The places of one process. It outlives the process as long as something that it
/// sponsors does.
#[derive(Clone, Copy, Debug, PartialEq, Eq, Structural)]
pub struct MetadataSponsor {
    pub kinds: Counters,
}

impl MetadataSponsor {
    pub open spec fn wf(self) -> bool {
        self.kinds.wf()
    }

    /// What a new sponsor may create.
    pub open spec fn fresh() -> Counters {
        Counters {
            pool_cores: Counter { used: 0, limit: POOL_CORES_PER_SPONSOR },
            address_spaces: Counter { used: 0, limit: ADDRESS_SPACES_PER_SPONSOR },
            builders: Counter { used: 0, limit: BUILDERS_PER_SPONSOR },
            controls: Counter { used: 0, limit: CONTROLS_PER_SPONSOR },
        }
    }

    /// Takes a sponsor's place; `room` says whether there is memory for it. Without
    /// memory the place is given back.
    pub fn try_new(admission: &mut MetadataAdmission, room: bool) -> (r: Result<
        MetadataSponsor,
        SystemCallError,
    >)
        requires
            old(admission).wf(),
        ensures
            final(admission).wf(),
            match r {
                Ok(sponsor) => {
                    &&& sponsor.wf()
                    &&& sponsor.kinds == MetadataSponsor::fresh()
                    &&& *final(admission) == (MetadataAdmission {
                        sponsors: old(admission).sponsors.taken(),
                        ..*old(admission)
                    })
                },
                Err(error) => {
                    &&& error == if old(admission).sponsors.used >= old(admission).sponsors.limit {
                        SystemCallError::ReachLimit
                    } else {
                        SystemCallError::OutOfMemory
                    }
                    &&& *final(admission) == *old(admission)
                },
            },
            r is Ok <==> old(admission).sponsors.used < old(admission).sponsors.limit && room,
    {
        if !admission.sponsors.try_acquire() {
            return Err(SystemCallError::ReachLimit);
        }
        if !room {
            admission.sponsors.release();
            return Err(SystemCallError::OutOfMemory);
        }
        Ok(
            MetadataSponsor {
                kinds: Counters {
                    pool_cores: Counter::new(POOL_CORES_PER_SPONSOR),
                    address_spaces: Counter::new(ADDRESS_SPACES_PER_SPONSOR),
                    builders: Counter::new(BUILDERS_PER_SPONSOR),
                    controls: Counter::new(CONTROLS_PER_SPONSOR),
                },
            },
        )
    }

    /// Takes a place for `kind`, both over all and of this sponsor, or neither.
    pub fn reserve(&mut self, admission: &mut MetadataAdmission, kind: Metadata) -> (r: Result<
        (),
        SystemCallError,
    >)
        requires
            old(self).wf(),
            old(admission).wf(),
        ensures
            final(self).wf(),
            final(admission).wf(),
            r == if old(admission).kinds.get(kind).used < old(admission).kinds.get(kind).limit
                && old(self).kinds.get(kind).used < old(self).kinds.get(kind).limit {
                Ok::<(), SystemCallError>(())
            } else {
                Err(SystemCallError::ReachLimit)
            },
            r is Err ==> *final(self) == *old(self) && *final(admission) == *old(admission),
            r is Ok ==> {
                &&& *final(self) == (MetadataSponsor {
                    kinds: old(self).kinds.with(kind, old(self).kinds.get(kind).taken()),
                })
                &&& *final(admission) == (MetadataAdmission {
                    kinds: old(admission).kinds.with(kind, old(admission).kinds.get(kind).taken()),
                    ..*old(admission)
                })
            },
    {
        if !admission.kinds.try_acquire(kind) {
            return Err(SystemCallError::ReachLimit);
        }
        if !self.kinds.try_acquire(kind) {
            admission.kinds.release(kind);
            return Err(SystemCallError::ReachLimit);
        }
        Ok(())
    }

    /// Takes a place for a pool core.
    pub fn reserve_pool_core(&mut self, admission: &mut MetadataAdmission) -> (r: Result<
        (),
        SystemCallError,
    >)
        requires
            old(self).wf(),
            old(admission).wf(),
        ensures
            final(self).wf(),
            final(admission).wf(),
            r is Ok <==> old(admission).kinds.pool_cores.used < old(
                admission,
            ).kinds.pool_cores.limit && old(self).kinds.pool_cores.used < old(
                self,
            ).kinds.pool_cores.limit,
            r matches Err(error) ==> error == SystemCallError::ReachLimit && *final(self) == *old(
                self,
            ) && *final(admission) == *old(admission),
            r is Ok ==> final(self).kinds == old(self).kinds.with(
                Metadata::PoolCore,
                old(self).kinds.pool_cores.taken(),
            ) && final(admission).kinds == old(admission).kinds.with(
                Metadata::PoolCore,
                old(admission).kinds.pool_cores.taken(),
            ) && final(admission).sponsors == old(admission).sponsors,
    {
        self.reserve(admission, Metadata::PoolCore)
    }

    /// Gives a place for `kind` back, both over all and of this sponsor.
    pub fn release(&mut self, admission: &mut MetadataAdmission, kind: Metadata)
        requires
            old(self).wf(),
            old(admission).wf(),
            old(self).kinds.get(kind).used > 0,
            old(admission).kinds.get(kind).used > 0,
        ensures
            final(self).wf(),
            final(admission).wf(),
            *final(self) == (MetadataSponsor {
                kinds: old(self).kinds.with(kind, old(self).kinds.get(kind).returned()),
            }),
            *final(admission) == (MetadataAdmission {
                kinds: old(admission).kinds.with(kind, old(admission).kinds.get(kind).returned()),
                ..*old(admission)
            }),
    {
        self.kinds.release(kind);
        admission.kinds.release(kind);
    }
}

/// How a failure to fund the root of an address space is reported.
pub fn map_root_error(error: FundError) -> (r: SystemCallError)
    ensures
        r == match error {
            FundError::Quota(cause) => memory_pool::pool_reported(cause),
            FundError::Physical => SystemCallError::OutOfMemory,
            _ => SystemCallError::InternalError,
        },
{
    match error {
        FundError::Quota(cause) => memory_pool::map_pool_error(cause),
        FundError::Physical => SystemCallError::OutOfMemory,
        FundError::ZeroPages
        | FundError::PageLimit
        | FundError::ExtentLimit
        | FundError::InvalidClaim => SystemCallError::InternalError,
    }
}

/// What a process's resources are bound to.
#[derive(Clone, Copy, Debug, PartialEq, Eq, Structural)]
pub struct ProcessResources {
    pub metadata: MetadataSponsor,
    pub bind_in_progress: bool,
}

impl ProcessResources {
    /// Claims the right to bind the address space; refused while someone else has it.
    pub fn try_reserve_binding(&mut self) -> (r: Result<(), SystemCallError>)
        ensures
            r == if old(self).bind_in_progress {
                Err::<(), _>(SystemCallError::ObjectBusy)
            } else {
                Ok(())
            },
            *final(self) == (ProcessResources { bind_in_progress: true, ..*old(self) }),
    {
        if self.bind_in_progress {
            return Err(SystemCallError::ObjectBusy);
        }
        self.bind_in_progress = true;
        Ok(())
    }

    /// Gives that right up.
    pub fn release_binding(&mut self)
        ensures
            *final(self) == (ProcessResources { bind_in_progress: false, ..*old(self) }),
    {
        self.bind_in_progress = false;
    }

    /// Prepares the binding of an address space: takes its metadata place, then funds
    /// its root. A failure leaves no place taken.
    pub fn prepare_binding(
        &mut self,
        admission: &mut MetadataAdmission,
        root: Result<(), FundError>,
    ) -> (r: Result<(), SystemCallError>)
        requires
            old(self).metadata.wf(),
            old(admission).wf(),
        ensures
            final(self).metadata.wf(),
            final(admission).wf(),
            final(self).bind_in_progress == old(self).bind_in_progress,
            ({
                let free = old(admission).kinds.address_spaces.used < old(
                    admission,
                ).kinds.address_spaces.limit && old(self).metadata.kinds.address_spaces.used < old(
                    self,
                ).metadata.kinds.address_spaces.limit;
                match r {
                    Ok(_) => {
                        &&& free
                        &&& root is Ok
                        &&& final(self).metadata.kinds == old(self).metadata.kinds.with(
                            Metadata::AddressSpace,
                            old(self).metadata.kinds.address_spaces.taken(),
                        )
                        &&& *final(admission) == (MetadataAdmission {
                            kinds: old(admission).kinds.with(
                                Metadata::AddressSpace,
                                old(admission).kinds.address_spaces.taken(),
                            ),
                            ..*old(admission)
                        })
                    },
                    Err(error) => {
                        &&& !free || root is Err
                        &&& *final(self) == *old(self)
                        &&& *final(admission) == *old(admission)
                        &&& error == if !free {
                            SystemCallError::ReachLimit
                        } else {
                            match root->Err_0 {
                                FundError::Quota(cause) => memory_pool::pool_reported(cause),
                                FundError::Physical => SystemCallError::OutOfMemory,
                                _ => SystemCallError::InternalError,
                            }
                        }
                    },
                }
            }),
    {
        match self.metadata.reserve(admission, Metadata::AddressSpace) {
            Err(error) => {
                return Err(error);
            },
            Ok(_) => {},
        }
        match root {
            Ok(_) => Ok(()),
            Err(error) => {
                self.metadata.release(admission, Metadata::AddressSpace);
                Err(map_root_error(error))
            },
        }
    }
}

/// A place that was taken and given back is free as before.
pub proof fn acquire_then_release(counters: Counters, kind: Metadata)
    requires
        counters.wf(),
        counters.get(kind).used < counters.get(kind).limit,
    ensures
        ({
            let taken = counters.with(kind, counters.get(kind).taken());
            taken.wf() && taken.with(kind, taken.get(kind).returned()) == counters
        }),
{
}

/// A new sponsor has room for one builder, one control and one address space: with one of them
/// taken, another is refused.
pub proof fn one_shell_each(kind: Metadata)
    requires
        !(kind is PoolCore),
    ensures
        ({
            let fresh = MetadataSponsor::fresh();
            let taken = fresh.with(kind, fresh.get(kind).taken());
            &&& fresh.get(kind).used < fresh.get(kind).limit
            &&& !(taken.get(kind).used < taken.get(kind).limit)
        }),
{
}

/// Taking and giving back are one place each, of one kind: all other kinds stay as they are, and
/// no limit changes.
pub proof fn places_are_counted_one_by_one(counters: Counters, kind: Metadata, other: Metadata)
    requires
        counters.wf(),
    ensures
        counters.get(kind).used < counters.get(kind).limit ==> {
            let after = counters.with(kind, counters.get(kind).taken());
            &&& after.get(kind).used == counters.get(kind).used + 1
            &&& after.get(kind).limit == counters.get(kind).limit
            &&& other != kind ==> after.get(other) == counters.get(other)
        },
        counters.get(kind).used > 0 ==> {
            let after = counters.with(kind, counters.get(kind).returned());
            &&& after.get(kind).used == counters.get(kind).used - 1
            &&& after.get(kind).limit == counters.get(kind).limit
            &&& other != kind ==> after.get(other) == counters.get(other)
        },
{
}

/// A new sponsor has used nothing, and may have one of everything but pools.
pub proof fn new_sponsor_has_used_nothing(kind: Metadata)
    ensures
        MetadataSponsor::fresh().get(kind).used == 0,
        MetadataSponsor::fresh().get(kind).limit == if kind is PoolCore {
            1024int
        } else {
            1
        },
{
}

} // verus!
