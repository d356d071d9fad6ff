//! Bringing up the first process: its address space is filled from an image, and then it is
//! launched whole or given up.
use vstd::prelude::*;

use crate::address_space;
use crate::address_space::{AddressSpaceState, BoundAddressSpace, SpaceView};
use crate::backing;
use crate::bootstrap;
use crate::bootstrap::BlockGeometry;
use crate::building_calls;
use crate::building_calls::{BuildingFailure, BuildingOutcomes, LoadedImage, MappedBlock};
use crate::elf_layout;
use crate::elf_layout::{LoadSegment, PageRun};
use crate::error::SystemCallError;
use crate::execution::{ExecutionBinding, ThreadStartContext};
use crate::handle;
use crate::handle::ProcessHandleEntry;
use crate::ids;
use crate::job;
use crate::job::{JobTree, MemberReservation, Pid, TreeView, JOB_DIRECT_ENTRY_LIMIT};
use crate::lifecycle::{
    AttachFault, Lifecycle, LifecycleView, MemberEntry, ProcessExitReason, ProcessState,
    ThreadState,
};
use crate::map_intent::UserSpace;
use crate::memory_object::Protection;
use crate::object::{HandleRole, Koid, ObjectKind};
use crate::ordered_table;
use crate::ordered_table::Entry;
use crate::process;
use crate::process::{IsaRequirement, PAGE_SIZE};
use crate::rights;
use crate::space::SpaceError;

verus! {

/// A process that was never published, given up.
pub open spec fn given_up(process: LifecycleView) -> LifecycleView {
    LifecycleView {
        state: ProcessState::Terminating,
        reason: ProcessExitReason::Killed,
        code: 0,
        members: Seq::empty(),
        ..process.advanced()
    }
}

/// A process under construction without a thread.
pub open spec fn empty_building(process: LifecycleView) -> bool {
    &&& process.state is Building
    &&& process.members.len() == 0
    &&& process.max_threads > 0
    &&& process.next_tid < u64::MAX
    &&& process.building_ops < usize::MAX
    &&& process.execution_sequence < u64::MAX
}

/// What loading an image and mapping the stack comes to, if the pages of the image are laid
/// out as `runs`.
pub open spec fn filling_outcome(
    space: SpaceView,
    user: UserSpace,
    segments: Seq<LoadSegment>,
    runs: Seq<PageRun>,
    outcomes: Seq<BuildingOutcomes>,
    file_len: usize,
    written: Seq<Result<(), SpaceError>>,
    stack: BuildingOutcomes,
) -> (SpaceView, Option<SpaceError>) {
    let loaded = building_calls::load_outcome(
        space,
        segments,
        runs,
        outcomes,
        file_len,
        written,
    );
    if loaded.1 is Some {
        loaded
    } else {
        building_calls::mapping_outcome(
            loaded.0,
            user.spec_stack_base() as usize,
            user.stack_bytes,
            None,
            stack,
        )
    }
}

/// It failed like this, with nothing to give back.
pub open spec fn refused(
    r: Result<LoadedImage, BuildingFailure>,
    error: SpaceError,
) -> bool {
    r matches Err(failure) && failure.error == error && failure.backing is None
        && !failure.roll_back
}

/// Makes a process from an image: `created` is what creating it gave, `prepared` what preparing
/// to bind memory to it gave. The other arguments are those of [`building_calls::load_elf`] and
/// [`building_calls::map_stack`]. What the ledger was asked for, run by run and last for the
/// stack, and what was written; a process that cannot be filled is given up.
pub fn spawn_from_elf(
    lifecycle: &mut Lifecycle,
    state: &mut AddressSpaceState,
    created: Result<(), SpaceError>,
    prepared: Result<BoundAddressSpace, SystemCallError>,
    user: UserSpace,
    segments: &Vec<LoadSegment>,
    room: bool,
    outcomes: &Vec<BuildingOutcomes>,
    file_len: usize,
    written: &Vec<Result<(), SpaceError>>,
    stack: &BuildingOutcomes,
) -> (r: Result<LoadedImage, BuildingFailure>)
    requires
        old(lifecycle).wf(),
        empty_building(old(lifecycle)@),
        prepared matches Ok(space) ==> space.wf(),
        user.wf(),
        written@.len() == segments@.len(),
        elf_layout::loadable(segments@, user.top as int) && room ==> forall|runs: Seq<PageRun>|
            #[trigger]
            elf_layout::runs_of(segments@, runs) ==> building_calls::outcomes_fit(runs, outcomes@),
        stack.runs matches Ok(runs) ==> backing::runs_fit(
            runs@,
            user.stack_bytes as int / PAGE_SIZE as int,
        ),
    ensures
        final(lifecycle).wf(),
        ({
            let bound = created is Ok && prepared is Ok && *old(state) is Unbound;
            &&& created is Err ==> refused(r, created->Err_0)
            &&& created is Ok && prepared is Err ==> refused(
                r,
                bootstrap::unbound_refusal(prepared->Err_0),
            )
            &&& created is Ok && prepared is Ok && *old(state) is Bound ==> refused(
                r,
                SpaceError::NoFrame,
            )
            &&& !bound ==> *final(state) == *old(state) && final(lifecycle)@ == old(lifecycle)@
            &&& bound ==> {
                &&& *final(state) is Bound
                &&& final(state)->0.wf()
                &&& final(lifecycle)@ == if r is Ok {
                    old(lifecycle)@
                } else {
                    given_up(old(lifecycle)@)
                }
                &&& !elf_layout::loadable(segments@, user.top as int) ==> refused(
                    r,
                    SpaceError::BadSegment,
                )
                &&& elf_layout::loadable(segments@, user.top as int) && !room ==> refused(
                    r,
                    SpaceError::NoFrame,
                )
                &&& elf_layout::loadable(segments@, user.top as int) && room ==> exists|
                    runs: Seq<PageRun>,
                | #[trigger]
                    elf_layout::runs_of(segments@, runs) && ({
                        let outcome = filling_outcome(
                            prepared->Ok_0@,
                            user,
                            segments@,
                            runs,
                            outcomes@,
                            file_len,
                            written@,
                            *stack,
                        );
                        &&& final(state)->0@ == outcome.0
                        &&& match r {
                            Ok(image) => {
                                let loaded = building_calls::load_outcome(
                                    prepared->Ok_0@,
                                    segments@,
                                    runs,
                                    outcomes@,
                                    file_len,
                                    written@,
                                );
                                &&& outcome.1 is None
                                &&& image.copies@ == elf_layout::copies(
                                    segments@,
                                    segments@.len() as int,
                                )
                                &&& image.requests@ == building_calls::run_requests(
                                    prepared->Ok_0@,
                                    runs,
                                    outcomes@,
                                    runs.len() as int,
                                ).push(
                                    building_calls::image_request(
                                        loaded.0,
                                        user.spec_stack_base() as usize,
                                        user.stack_bytes,
                                        Protection::ReadWrite,
                                    ),
                                )
                            },
                            Err(failure) => {
                                let loaded = building_calls::load_outcome(
                                    prepared->Ok_0@,
                                    segments@,
                                    runs,
                                    outcomes@,
                                    file_len,
                                    written@,
                                );
                                let mapped = building_calls::image_outcome(
                                    prepared->Ok_0@,
                                    runs,
                                    outcomes@,
                                    runs.len() as int,
                                );
                                &&& outcome.1 == Some(failure.error)
                                &&& if mapped.1 is Some {
                                    exists|k: int| #[trigger]
                                        building_calls::run_gives_up(
                                            prepared->Ok_0@,
                                            runs,
                                            outcomes@,
                                            k,
                                            failure,
                                        )
                                } else if loaded.1 is Some {
                                    failure.backing is None && !failure.roll_back
                                } else {
                                    building_calls::gives_up(
                                        loaded.0,
                                        user.spec_stack_base() as usize,
                                        user.stack_bytes,
                                        *stack,
                                        failure,
                                    )
                                }
                            },
                        }
                    })
            }
        }),
{
    match created {
        Err(error) => {
            return Err(BuildingFailure { error, backing: None, roll_back: false });
        },
        Ok(_) => {},
    }
    let mut space = match prepared {
        Err(error) => {
            return Err(
                BuildingFailure {
                    error: bootstrap::bind_refusal(error),
                    backing: None,
                    roll_back: false,
                },
            );
        },
        Ok(space) => space,
    };
    if state.is_bound() {
        return Err(
            BuildingFailure {
                error: bootstrap::bind_refusal(SystemCallError::ObjectNotAvailable),
                backing: None,
                roll_back: false,
            },
        );
    }
    let loaded = building_calls::load_elf(
        &mut space,
        user,
        segments,
        room,
        outcomes,
        file_len,
        written,
    );
    let filled: Result<LoadedImage, BuildingFailure> = match loaded {
        Err(failure) => Err(failure),
        Ok(mut image) => match building_calls::map_stack(&mut space, user, stack) {
            Err(failure) => Err(failure),
            Ok(request) => {
                image.requests.push(request);
                Ok(image)
            },
        },
    };
    *state = AddressSpaceState::Bound(space);
    if filled.is_err() {
        give_up(lifecycle);
    }
    filled
}

/// Gives up a process that was never published: its threads, none of which ever ran.
fn give_up(lifecycle: &mut Lifecycle) -> (r: Vec<u64>)
    requires
        old(lifecycle).wf(),
        old(lifecycle)@.state is Building,
        old(lifecycle)@.execution_sequence < u64::MAX,
    ensures
        final(lifecycle).wf(),
        r@ == process::never_ran(old(lifecycle)@.members),
        final(lifecycle)@ == given_up(old(lifecycle)@),
{
    proof {
        bootstrap::nothing_ran_while_built(lifecycle@);
    }
    let dropped = bootstrap::rollback_unpublished(lifecycle);
    assert(lifecycle@ =~= given_up(old(lifecycle)@));
    dropped
}

/// Why the block for the first thread could not be built.
#[derive(Clone, Copy, Debug, PartialEq, Eq, Structural)]
pub enum StartupBuildError {
    Overflow,
    AllocationFailed,
}

/// What a launch meets with. Only what is reached counts.
pub struct LaunchOutcomes {
    /// The objects behind the process's own handles could be made, and the handles listed.
    pub entries: bool,
    /// Slots in its handle table were reserved.
    pub slots: bool,
    /// The length of the block's prefix.
    pub prefix: Result<usize, StartupBuildError>,
    /// The frames that hold the payload since boot, if there are any, and whether they could be
    /// charged.
    pub payload: Option<Option<(usize, usize)>>,
    pub payload_len: usize,
    pub payload_room: bool,
    /// What mapping the block meets with.
    pub block: BuildingOutcomes,
    /// The scheduling domain that can execute the process.
    pub domain: Option<usize>,
    /// A place in the ready queue was reserved.
    pub ready: bool,
    /// The thread can be listed.
    pub room: bool,
    /// Whether the address space admits the start context.
    pub admitted: Result<(), SpaceError>,
    /// The thread, if it could be built.
    pub built: Option<u64>,
    pub thread_room: bool,
    pub member_room: bool,
}

/// A process that was not launched. It is given up.
pub struct LaunchFailure {
    pub error: SpaceError,
    /// The reserved slots are to be given back.
    pub give_back: bool,
    /// The handles that were to be given to the process, to be closed.
    pub close: Vec<ProcessHandleEntry>,
    /// The threads of the process, to be dropped.
    pub dropped: Vec<u64>,
    /// What is to be given back of the block, if it is the block that could not be mapped.
    pub block: Option<BuildingFailure>,
}

/// A process that was launched.
pub struct Launched {
    /// The entries to publish in its handle table.
    pub handles: Vec<ProcessHandleEntry>,
    /// How its first thread starts.
    pub context: ThreadStartContext,
    /// The thread to queue.
    pub thread: u64,
    /// Its block.
    pub block: MappedBlock,
}

/// The handles of the first process: those it is given, one to itself and one to its pool.
pub open spec fn all_handles(
    given: Seq<ProcessHandleEntry>,
    control: Koid,
    pool: Koid,
) -> Seq<ProcessHandleEntry> {
    given.push(
        ProcessHandleEntry {
            object: control,
            kind: ObjectKind::ProcessControl,
            role: HandleRole::ProcessControl,
            rights: rights::PROCESS_CONTROL,
        },
    ).push(
        ProcessHandleEntry {
            object: pool,
            kind: ObjectKind::MemoryPool,
            role: HandleRole::MemoryPool,
            rights: rights::MEMORY_POOL,
        },
    )
}

/// The frames that hold the payload.
pub open spec fn charged(o: LaunchOutcomes) -> Option<(usize, usize)> {
    match o.payload {
        Some(frames) => frames,
        None => None,
    }
}

impl LaunchOutcomes {
    /// Why the launch fails before the block is mapped.
    pub open spec fn early_refusal(self) -> Option<SpaceError> {
        if !self.slots {
            Some(SpaceError::NoFrame)
        } else if self.prefix is Err {
            Some(
                match self.prefix->Err_0 {
                    StartupBuildError::Overflow => SpaceError::BadSegment,
                    StartupBuildError::AllocationFailed => SpaceError::NoFrame,
                },
            )
        } else if self.payload == Some(None::<(usize, usize)>) {
            Some(SpaceError::NoFrame)
        } else if self.payload is None && self.payload_len != 0 {
            Some(SpaceError::BadSegment)
        } else {
            None
        }
    }

    /// Where the block goes.
    pub open spec fn geometry(self, user: UserSpace, space: SpaceView) -> Result<
        BlockGeometry,
        SpaceError,
    > {
        bootstrap::block_geometry(
            user,
            space.image_end,
            self.prefix->Ok_0,
            building_calls::payload_pages(charged(self)),
            self.payload_len,
        )
    }

    /// What mapping the block comes to.
    pub open spec fn mapping(self, user: UserSpace, space: SpaceView) -> (
        SpaceView,
        Option<SpaceError>,
    ) {
        building_calls::block_outcome(
            space,
            self.geometry(user, space),
            charged(self),
            self.payload_room,
            self.block,
        )
    }

    /// What was had for the block comes back.
    pub open spec fn block_gives_up(
        self,
        user: UserSpace,
        space: SpaceView,
        failure: BuildingFailure,
    ) -> bool {
        building_calls::block_gives_up(
            space,
            self.geometry(user, space),
            charged(self),
            self.payload_room,
            self.block,
            failure,
        )
    }

    /// The block is mapped.
    pub open spec fn block_mapped(
        self,
        user: UserSpace,
        space: SpaceView,
        block: MappedBlock,
    ) -> bool {
        building_calls::block_mapped(
            space,
            self.geometry(user, space)->Ok_0,
            self.prefix->Ok_0,
            charged(self),
            self.block,
            block,
        )
    }

    /// The address space once the block is mapped and owns its payload.
    pub open spec fn filled(self, user: UserSpace, space: SpaceView) -> SpaceView {
        let mapped = self.mapping(user, space);
        if mapped.1 is None && charged(self) is Some {
            SpaceView {
                backings: address_space::lent_owned(
                    mapped.0.backings,
                    self.block.runs->Ok_0@.len() as int,
                ),
                ..mapped.0
            }
        } else {
            mapped.0
        }
    }

    /// Why the launch fails between the mapping of the block and the end of the attachment of
    /// its thread.
    pub open spec fn late_refusal(self) -> Option<SpaceError> {
        if self.domain is None {
            Some(SpaceError::BadSegment)
        } else if !self.ready || !self.room {
            Some(SpaceError::NoFrame)
        } else if self.admitted is Err {
            Some(self.admitted->Err_0)
        } else if self.built is None || !self.thread_room {
            Some(SpaceError::NoFrame)
        } else {
            None
        }
    }

    /// The process cannot be entered in its job.
    pub open spec fn turned_away(self, tree: TreeView, j: int) -> bool {
        ||| tree.next_token is None
        ||| tree.jobs[j].members.entries.len() >= JOB_DIRECT_ENTRY_LIMIT
        ||| !self.member_room
    }

    /// What the frames and lengths of a launch have in common.
    pub open spec fn fits(self) -> bool {
        &&& self.prefix matches Ok(prefix) ==> (self.block.runs matches Ok(runs)
            ==> backing::runs_fit(runs@, prefix as int / PAGE_SIZE as int))
        &&& charged(self) matches Some((base, pages)) ==> pages > 0 && (base + pages) * PAGE_SIZE
            <= usize::MAX
        &&& self.domain matches Some(domain) ==> domain < usize::MAX / 4
    }
}

/// The job tree with process `pid` in job `j`.
pub open spec fn entered(tree: TreeView, j: int, pid: Pid, process: u64) -> TreeView {
    tree.token_taken().with_member(j, pid, process)
}

/// Lists the handles of the first process.
fn list_handles(given: Vec<ProcessHandleEntry>, control: Koid, pool: Koid) -> (r: Result<
    Vec<ProcessHandleEntry>,
    SpaceError,
>)
    ensures
        r is Ok,
        r->Ok_0@ == all_handles(given@, control, pool),
{
    proof {
        handle::all_rights_may_enter(
            control,
            ObjectKind::ProcessControl,
            HandleRole::ProcessControl,
        );
        handle::all_rights_may_enter(pool, ObjectKind::MemoryPool, HandleRole::MemoryPool);
    }
    let mut handles = given;
    let first = match handle::entry(
        control,
        ObjectKind::ProcessControl,
        HandleRole::ProcessControl,
        rights::PROCESS_CONTROL,
    ) {
        Err(_) => {
            return Err(SpaceError::NoFrame);
        },
        Ok(entry) => entry,
    };
    let second = match handle::entry(
        pool,
        ObjectKind::MemoryPool,
        HandleRole::MemoryPool,
        rights::MEMORY_POOL,
    ) {
        Err(_) => {
            return Err(SpaceError::NoFrame);
        },
        Ok(entry) => entry,
    };
    handles.push(first);
    handles.push(second);
    Ok(handles)
}

/// Maps the block of the first thread and hands it its payload: the block, and how long it is.
fn place_block(
    space: &mut BoundAddressSpace,
    user: UserSpace,
    o: &LaunchOutcomes,
) -> (r: Result<(MappedBlock, usize), (SpaceError, Option<BuildingFailure>)>)
    requires
        old(space).wf(),
        user.wf(),
        o.fits(),
        o.slots,
    ensures
        final(space).wf(),
        ({
            let mapped = o.mapping(user, old(space)@);
            match r {
                Err((error, block)) => if o.early_refusal() is Some {
                    o.early_refusal() == Some(error) && block is None && final(space)@ == old(
                        space,
                    )@
                } else {
                    &&& mapped.1 == Some(error)
                    &&& final(space)@ == mapped.0
                    &&& block is Some
                    &&& o.block_gives_up(user, old(space)@, block->0)
                },
                Ok((block, len)) => {
                    &&& o.early_refusal() is None && mapped.1 is None
                    &&& o.block_mapped(user, old(space)@, block)
                    &&& len == o.prefix->Ok_0 + o.payload_len
                    &&& final(space)@ == o.filled(user, old(space)@)
                },
            }
        }),
{
    let prefix: usize = match o.prefix {
        Err(StartupBuildError::Overflow) => {
            return Err((SpaceError::BadSegment, None));
        },
        Err(StartupBuildError::AllocationFailed) => {
            return Err((SpaceError::NoFrame, None));
        },
        Ok(prefix) => prefix,
    };
    let payload: Option<(usize, usize)> = match o.payload {
        Some(None) => {
            return Err((SpaceError::NoFrame, None));
        },
        Some(Some(frames)) => Some(frames),
        None => {
            if o.payload_len != 0 {
                return Err((SpaceError::BadSegment, None));
            }
            None
        },
    };
    let block = match building_calls::map_bootstrap_block(
        space,
        user,
        prefix,
        payload,
        o.payload_len,
        o.payload_room,
        &o.block,
    ) {
        Err(failure) => {
            return Err((failure.error, Some(failure)));
        },
        Ok(block) => block,
    };
    let ghost mapped = space@;
    match payload {
        None => {},
        Some((first, pages)) => {
            proof {
                let runs = o.block.runs->Ok_0@;
                let extents = mapped.backings.last().extents;
                assert(extents.len() == runs.len() + 1);
                assert forall|k: int| 0 <= k < runs.len() implies (#[trigger] extents[k]).holding
                    == backing::Holding::Funded by {
                    assert(extents[k] == backing::laid_out(runs)[k]);
                }
                assert(address_space::lent_at(extents, runs.len() as int));
                assert forall|i: int| #[trigger] address_space::lent_at(extents, i) implies i
                    == runs.len() by {
                    if i < runs.len() {
                        assert(extents[i].holding == backing::Holding::Funded);
                    }
                }
            }
            space.install_bootstrap_funding(first, pages);
        },
    }
    Ok((block, prefix + o.payload_len))
}

/// Launches the first process, `process` with identity `pid`, in job `j`: everything that can
/// fail comes before its handles, its entry in the job and its thread are published, in that
/// order. The thread starts at `entry` with its stack at the top of user memory, and is told
/// where its block is and how long. `control` and `pool` are the objects behind the handles
/// that it gets besides those in `given`. If anything fails the process is given up.
pub fn launch_bootstrap(
    tree: &mut JobTree,
    j: usize,
    pid: Pid,
    process: u64,
    lifecycle: &mut Lifecycle,
    space: &mut BoundAddressSpace,
    binding: &mut ExecutionBinding,
    user: UserSpace,
    entry: usize,
    requirement: IsaRequirement,
    given: Vec<ProcessHandleEntry>,
    control: Koid,
    pool: Koid,
    o: &LaunchOutcomes,
) -> (r: Result<Launched, LaunchFailure>)
    requires
        old(tree).wf(),
        j < old(tree)@.jobs.len(),
        !old(tree)@.jobs[j as int].sealed,
        !old(tree)@.jobs[j as int].members.has(pid),
        crate::ids::spent(old(tree)@.next_pid, pid),
        old(lifecycle).wf(),
        empty_building(old(lifecycle)@),
        old(space).wf(),
        old(binding).word == 0,
        user.wf(),
        o.fits(),
    ensures
        final(tree).wf(),
        final(lifecycle).wf(),
        final(space).wf(),
        ({
            let handles = all_handles(given@, control, pool);
            let early = o.early_refusal();
            let mapped = o.mapping(user, old(space)@);
            let late = o.late_refusal();
            let away = o.turned_away(old(tree)@, j as int);
            let before = old(lifecycle)@;
            let attached = LifecycleView { next_tid: (before.next_tid + 1) as u64, ..before };
            match r {
                Err(failure) => {
                    &&& *final(binding) == *old(binding)
                    &&& failure.error == if !o.entries {
                        SpaceError::NoFrame
                    } else if early is Some {
                        early->0
                    } else if mapped.1 is Some {
                        mapped.1->0
                    } else if late is Some {
                        late->0
                    } else {
                        SpaceError::NoFrame
                    }
                    &&& !o.entries || early is Some || mapped.1 is Some || late is Some || away
                    &&& failure.give_back == (o.entries && o.slots)
                    &&& failure.block is Some <==> o.entries && early is None && mapped.1 is Some
                    &&& failure.block matches Some(block) ==> o.block_gives_up(
                        user,
                        old(space)@,
                        block,
                    )
                    &&& failure.close@ == if o.entries {
                        handles
                    } else {
                        Seq::empty()
                    }
                    &&& final(space)@ == if !o.entries || early is Some {
                        old(space)@
                    } else {
                        o.filled(user, old(space)@)
                    }
                    &&& if o.entries && early is None && mapped.1 is None && late is None {
                        &&& failure.dropped@ == seq![o.built->0]
                        &&& final(lifecycle)@ == given_up(attached)
                        &&& final(tree)@ == if old(tree)@.next_token is None {
                            old(tree)@
                        } else {
                            old(tree)@.token_taken()
                        }
                    } else {
                        &&& failure.dropped@.len() == 0
                        &&& final(lifecycle)@ == given_up(before)
                        &&& final(tree)@ == old(tree)@
                    }
                },
                Ok(launched) => {
                    &&& o.entries && early is None && mapped.1 is None && late is None && !away
                    &&& launched.handles@ == handles
                    &&& launched.thread == o.built->0
                    &&& o.block_mapped(user, old(space)@, launched.block)
                    &&& launched.context == (ThreadStartContext {
                        entry: entry as u64,
                        stack_pointer: user.top as u64,
                        arg1: old(space)@.image_end as u64,
                        arg2: (o.prefix->Ok_0 + o.payload_len) as u64,
                    })
                    &&& final(space)@ == o.filled(user, old(space)@)
                    &&& final(tree)@ == entered(old(tree)@, j as int, pid, process)
                    &&& final(lifecycle)@ == (LifecycleView {
                        state: ProcessState::Running,
                        members: seq![
                            MemberEntry { tid: before.next_tid, state: ThreadState::Ready },
                        ],
                        ..attached.advanced()
                    })
                    &&& final(binding).word == ExecutionBinding::encoded(
                        requirement,
                        o.domain->0 as int,
                    )
                },
            }
        }),
{
    proof {
        reveal_with_fuel(process::never_ran, 2);
        tree.wf_view();
        assert(tree@.jobs[j as int].wf());
    }
    if !o.entries {
        let dropped = give_up(lifecycle);
        return Err(
            LaunchFailure {
                error: SpaceError::NoFrame,
                give_back: false,
                close: Vec::new(),
                dropped,
                block: None,
            },
        );
    }
    let handles = match list_handles(given, control, pool) {
        Err(error) => {
            let dropped = give_up(lifecycle);
            return Err(LaunchFailure { error, give_back: false, close: Vec::new(), dropped, block: None });
        },
        Ok(handles) => handles,
    };
    if !o.slots {
        let dropped = give_up(lifecycle);
        return Err(
            LaunchFailure {
                error: SpaceError::NoFrame,
                give_back: false,
                close: handles,
                dropped,
                block: None,
            },
        );
    }
    let (block, len) = match place_block(space, user, o) {
        Err((error, block)) => {
            let dropped = give_up(lifecycle);
            return Err(LaunchFailure { error, give_back: true, close: handles, dropped, block });
        },
        Ok(placed) => placed,
    };
    let domain: usize = match o.domain {
        None => {
            let dropped = give_up(lifecycle);
            return Err(
                LaunchFailure {
                    error: SpaceError::BadSegment,
                    give_back: true,
                    close: handles,
                    dropped,
                    block: None,
                },
            );
        },
        Some(domain) => domain,
    };
    if !o.ready || !o.room {
        let dropped = give_up(lifecycle);
        return Err(
            LaunchFailure { error: SpaceError::NoFrame, give_back: true, close: handles, dropped, block: None },
        );
    }
    let context = ThreadStartContext {
        entry: entry as u64,
        stack_pointer: user.top as u64,
        arg1: block.base as u64,
        arg2: len as u64,
    };
    match o.admitted {
        Err(error) => {
            let dropped = give_up(lifecycle);
            return Err(LaunchFailure { error, give_back: true, close: handles, dropped, block: None });
        },
        Ok(_) => {},
    }
    let built: Result<u64, AttachFault> = match o.built {
        Some(thread) => Ok(thread),
        None => Err(AttachFault::Oom),
    };
    match lifecycle.attach_member(built, o.thread_room) {
        Err(_) => {
            let dropped = give_up(lifecycle);
            return Err(
                LaunchFailure {
                    error: SpaceError::NoFrame,
                    give_back: true,
                    close: handles,
                    dropped,
                    block: None,
                },
            );
        },
        Ok(_) => {},
    }
    let reservation: MemberReservation = match tree.reserve_member(j, pid, o.member_room) {
        Err(_) => {
            let ghost staged = lifecycle@.members;
            let dropped = give_up(lifecycle);
            proof {
                assert(staged.drop_first() =~= Seq::empty());
                assert(dropped@ =~= seq![o.built->0]);
            }
            return Err(
                LaunchFailure {
                    error: SpaceError::NoFrame,
                    give_back: true,
                    close: handles,
                    dropped,
                    block: None,
                },
            );
        },
        Ok(reservation) => reservation,
    };
    lifecycle.enter_building_op();
    let mut staged: Vec<u64> = Vec::new();
    proof {
        let members = old(tree)@.jobs[j as int].members;
        ordered_table::insert_then_replace(
            members,
            pid,
            Entry::Reserved { token: reservation.token },
            Entry::Live(process),
        );
    }
    tree.commit_member(j, reservation, process);
    assert(tree@.jobs =~= entered(old(tree)@, j as int, pid, process).jobs);
    let _ = lifecycle.begin_running(1, &mut staged);
    assert(staged@ =~= seq![o.built->0]);
    binding.bind_execution(requirement, domain);
    let thread: u64 = staged[0];
    Ok(Launched { handles, context, thread, block })
}

/// A process that is given up goes down as killed, with no thread; its numbers stay its own.
pub proof fn given_up_processes_are_killed(process: LifecycleView)
    requires
        process.execution_sequence < u64::MAX,
    ensures
        ({
            let after = given_up(process);
            &&& after.state is Terminating && after.reason is Killed && after.code == 0
            &&& after.members.len() == 0
            &&& after.execution_sequence == process.execution_sequence + 1
            &&& after.next_tid == process.next_tid && after.active == process.active
                && after.building_ops == process.building_ops
        }),
{
}

/// The handles of the first process: all that it is given, in their order, and then one to itself
/// and one to its pool, with all rights that the two objects grant.
pub proof fn first_process_holds_itself_and_its_pool(
    given: Seq<ProcessHandleEntry>,
    control: Koid,
    pool: Koid,
)
    ensures
        ({
            let all = all_handles(given, control, pool);
            let own = all[given.len() as int];
            let last = all[given.len() as int + 1];
            &&& all.len() == given.len() + 2
            &&& forall|i: int| 0 <= i < given.len() ==> #[trigger] all[i] == given[i]
            &&& own.object == control && own.kind is ProcessControl && own.role is ProcessControl
                && Some(own.rights) == handle::max_rights(own.kind, own.role)
            &&& last.object == pool && last.kind is MemoryPool && last.role is MemoryPool
                && Some(last.rights) == handle::max_rights(last.kind, last.role)
        }),
{
}

/// What stops a launch before the block is mapped: in this order, no slots, a prefix that cannot be
/// built, a payload that cannot be charged, and a payload that has a length but no frames.
pub proof fn launches_stop_early(o: LaunchOutcomes)
    ensures
        o.early_refusal() is None <==> o.slots && o.prefix is Ok && (match o.payload {
            Some(frames) => frames is Some,
            None => o.payload_len == 0,
        }),
        !o.slots ==> o.early_refusal() == Some(SpaceError::NoFrame),
        o.slots && o.prefix == Err::<usize, _>(StartupBuildError::Overflow) ==> o.early_refusal()
            == Some(SpaceError::BadSegment),
        o.slots && o.prefix == Err::<usize, _>(StartupBuildError::AllocationFailed)
            ==> o.early_refusal() == Some(SpaceError::NoFrame),
        o.slots && o.prefix is Ok && o.payload is None && o.payload_len != 0 ==> o.early_refusal()
            == Some(SpaceError::BadSegment),
        o.early_refusal() is None ==> (charged(o) is Some <==> o.payload is Some),
        charged(o) matches Some(frames) ==> o.payload == Some(Some(frames)),
{
}

/// What stops it later: in this order, no scheduling domain, no place to be ready in, an address
/// space that does not admit the start context, and a thread that cannot be built.
pub proof fn launches_stop_late(o: LaunchOutcomes)
    ensures
        o.late_refusal() is None <==> o.domain is Some && o.ready && o.room && o.admitted is Ok
            && o.built is Some && o.thread_room,
        o.domain is None ==> o.late_refusal() == Some(SpaceError::BadSegment),
        o.domain is Some && o.ready && o.room && o.admitted is Err ==> o.late_refusal() == Some(
            o.admitted->Err_0,
        ),
        o.domain is Some && !(o.ready && o.room) ==> o.late_refusal() == Some(SpaceError::NoFrame),
{
}

/// A process is turned away from its job exactly if tokens are spent, the job has all the members it
/// may have, or its table cannot grow; else it is a visible member, and a token is used up.
pub proof fn jobs_take_processes_while_there_is_room(
    o: LaunchOutcomes,
    tree: TreeView,
    j: int,
    pid: Pid,
    process: u64,
)
    requires
        job::tree_wf(tree),
        0 <= j < tree.jobs.len(),
        !tree.jobs[j].members.has(pid),
    ensures
        o.turned_away(tree, j) <==> tree.next_token is None || !o.member_room
            || tree.jobs[j].members.entries.len() >= JOB_DIRECT_ENTRY_LIMIT,
        !o.turned_away(tree, j) ==> {
            let after = entered(tree, j, pid, process);
            &&& after.jobs[j].visible(job::JobMemberKind::MemberProcesses, pid) == Some(process)
            &&& after.next_token == ids::after(tree.next_token) && after.next_pid == tree.next_pid
            &&& forall|i: int|
                0 <= i < tree.jobs.len() && i != j ==> #[trigger] after.jobs[i] == tree.jobs[i]
        },
{
    if !o.turned_away(tree, j) {
        job::processes_join_their_job(tree, j, pid, process);
    }
}

/// An image and a stack are mapped exactly if both are: the stack once the image is loaded, as high
/// as user memory reaches, and the first failure is told.
pub proof fn images_come_before_stacks(
    space: SpaceView,
    user: UserSpace,
    segments: Seq<LoadSegment>,
    runs: Seq<PageRun>,
    outcomes: Seq<BuildingOutcomes>,
    file_len: usize,
    written: Seq<Result<(), SpaceError>>,
    stack: BuildingOutcomes,
)
    requires
        user.wf(),
    ensures
        ({
            let filled = filling_outcome(
                space,
                user,
                segments,
                runs,
                outcomes,
                file_len,
                written,
                stack,
            );
            let loaded = building_calls::load_outcome(
                space,
                segments,
                runs,
                outcomes,
                file_len,
                written,
            );
            &&& loaded.1 is Some ==> filled == loaded
            &&& filled.1 is None ==> {
                let new = filled.0.backings.last();
                &&& loaded.1 is None
                &&& filled.0.backings.drop_last() == loaded.0.backings
                &&& new.pages * 4096 == user.stack_bytes
                &&& filled.0.image_end == loaded.0.image_end
            }
        }),
{
    let loaded = building_calls::load_outcome(space, segments, runs, outcomes, file_len, written);
    if loaded.1 is None {
        building_calls::mapping_adds_one_backing(
            loaded.0,
            user.spec_stack_base() as usize,
            user.stack_bytes,
            None,
            stack,
        );
    }
}

/// Owning its payload moves nothing of a mapped block: it is the same address space but for who
/// holds the payload's run.
pub proof fn owning_the_payload_moves_nothing(
    o: LaunchOutcomes,
    user: UserSpace,
    space: SpaceView,
)
    ensures
        o.mapping(user, space).1 is Some || charged(o) is None ==> o.filled(user, space)
            == o.mapping(user, space).0,
        ({
            let mapped = o.mapping(user, space).0;
            let filled = o.filled(user, space);
            (SpaceView { backings: mapped.backings, ..filled }) == mapped && filled.backings.len()
                == mapped.backings.len()
        }),
{
}

} // verus!
