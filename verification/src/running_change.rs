//! Changes to the memory of a process that runs: what is had for a change before it is
//! committed, and what is given back if it is not.
use vstd::prelude::*;

use crate::address_space;
use crate::address_space::{BoundAddressSpace, ObjectView, SpaceView};
use crate::backing::{InstallSpan, OwnedBacking};
use crate::bootstrap;
use crate::error::SystemCallError;
use crate::lifecycle::Lifecycle;
use crate::map_intent::LedgerChange;
use crate::memory_pool::FundError;
use crate::process::PAGE_SIZE;
use crate::region::{PageRange, RetiringFragment};
use crate::resources::Counter;
use crate::shootdown;
use crate::shootdown::{
    AddressSpaceEpochs, FenceRequest, PrepareShootdownError, ReserveError,
    ShootdownSynchronization,
};
use crate::space;
use crate::space::{MapError, SpaceError};

verus! {

/// Why the tables of a change were not funded: the first part that fails decides.
pub open spec fn tables_refusal(
    parts: Seq<Vec<Result<usize, FundError>>>,
    from: int,
) -> Option<FundError>
    decreases parts.len() - from,
{
    if from >= parts.len() {
        None
    } else {
        match bootstrap::first_unfunded(parts[from]@, 0) {
            Some(error) => Some(error),
            None => tables_refusal(parts, from + 1),
        }
    }
}

/// The frames of one part.
pub open spec fn frames_of(results: Seq<Result<usize, FundError>>, frames: Seq<usize>) -> bool {
    &&& frames.len() == results.len()
    &&& forall|i: int|
        0 <= i < frames.len() ==> results[i] == Ok::<usize, FundError>(#[trigger] frames[i])
}

/// Funds the table frames of every part of a change, or none; `parts` says what funding
/// each frame of each part gives, `room` whether there is memory for the lists.
pub fn fund_table_preflights(parts: &Vec<Vec<Result<usize, FundError>>>, room: bool) -> (r: Result<
    Vec<Vec<usize>>,
    SpaceError,
>)
    ensures
        match r {
            Ok(funded) => {
                &&& room
                &&& tables_refusal(parts@, 0) is None
                &&& funded@.len() == parts@.len()
                &&& forall|k: int|
                    0 <= k < funded@.len() ==> frames_of(parts@[k]@, (#[trigger] funded@[k])@)
            },
            Err(error) => if !room {
                error == SpaceError::NoFrame
            } else {
                tables_refusal(parts@, 0) matches Some(cause) && error == space::fund_refusal(
                    cause,
                )
            },
        },
{
    if !room {
        return Err(SpaceError::NoFrame);
    }
    let mut funded: Vec<Vec<usize>> = Vec::new();
    let mut k: usize = 0;
    while k < parts.len()
        invariant
            room,
            k <= parts@.len(),
            funded@.len() == k,
            tables_refusal(parts@, 0) == tables_refusal(parts@, k as int),
            forall|i: int| 0 <= i < k ==> frames_of(parts@[i]@, (#[trigger] funded@[i])@),
        decreases parts@.len() - k,
    {
        match bootstrap::supply_funded_table_frames(&parts[k], true) {
            Err(error) => {
                return Err(error);
            },
            Ok(frames) => {
                assert(frames_of(parts@[k as int]@, frames@));
                funded.push(frames);
            },
        }
        k = k + 1;
    }
    Ok(funded)
}

/// Takes `count` places for parts that a change may split off, or none; `room` says whether
/// there is memory to list them.
pub fn reserve_backing_split_metadata(slices: &mut Counter, count: usize, room: bool) -> (r: Result<
    (),
    SpaceError,
>)
    requires
        old(slices).used <= old(slices).limit,
    ensures
        final(slices).used <= final(slices).limit,
        r == if !room {
            Err::<(), _>(SpaceError::NoFrame)
        } else if old(slices).used + count > old(slices).limit {
            Err(SpaceError::ReachLimit)
        } else {
            Ok(())
        },
        *final(slices) == if r is Ok {
            Counter { used: (old(slices).used + count) as usize, ..*old(slices) }
        } else {
            *old(slices)
        },
{
    if !room {
        return Err(SpaceError::NoFrame);
    }
    let mut taken: usize = 0;
    while taken < count
        invariant
            room,
            taken <= count,
            slices.limit == old(slices).limit,
            slices.used == old(slices).used + taken,
            slices.used <= slices.limit,
        decreases count - taken,
    {
        if !slices.try_acquire() {
            while taken > 0
                invariant
                    room,
                    taken <= count,
                    slices.limit == old(slices).limit,
                    slices.used == old(slices).used + taken,
                    slices.used <= slices.limit,
                    old(slices).used + count > old(slices).limit,
                decreases taken,
            {
                slices.release();
                taken = taken - 1;
            }
            return Err(SpaceError::ReachLimit);
        }
        taken = taken + 1;
    }
    Ok(())
}

/// A change that only has to be committed: what it brings, what it takes away, and the
/// objects whose permits to write it holds.
pub struct PreparedChange {
    /// What the ledger was asked for.
    pub asked: LedgerChange,
    /// The runs of an object that are entered in the page table.
    pub spans: Vec<InstallSpan>,
    pub backing: Option<OwnedBacking>,
    pub view: Option<ObjectView>,
    pub image_end: Option<usize>,
    pub fragments: Vec<RetiringFragment>,
    pub permits: Vec<u64>,
}

/// What a change that is not committed leaves to be given back.
pub struct Reclaimed {
    pub backing: Option<OwnedBacking>,
    pub view: Option<ObjectView>,
    pub permits: Vec<u64>,
}

/// Everything that the change had comes back.
pub open spec fn gives_back(change: PreparedChange, reclaimed: Reclaimed) -> bool {
    &&& reclaimed.backing == change.backing
    &&& reclaimed.view == change.view
    &&& reclaimed.permits == change.permits
}

/// Rolls a change back, planned or prepared: the address space is free for the next, and
/// what the change had is to be given back.
pub fn rollback_memory_change(space: &mut BoundAddressSpace, change: PreparedChange) -> (r:
    Reclaimed)
    requires
        old(space).wf(),
    ensures
        final(space).wf(),
        final(space)@ == (SpaceView { busy: false, ..old(space)@ }),
        gives_back(change, r),
{
    space.clear_table_transaction();
    Reclaimed { backing: change.backing, view: change.view, permits: change.permits }
}

/// What is held of the object behind a permit.
pub open spec fn core_behind(
    space: SpaceView,
    view: Option<ObjectView>,
    object: u64,
    core: u64,
) -> bool {
    match view {
        Some(owner) if owner.object == object => core == owner.core,
        _ => exists|i: int| #[trigger]
            address_space::view_at(space.views, i, object) && core == space.views[i].core,
    }
}

/// The object behind each permit is known: it is the one that the change was to bring, or
/// one that the address space holds.
pub open spec fn permits_known(
    space: SpaceView,
    view: Option<ObjectView>,
    permits: Seq<u64>,
) -> bool {
    forall|k: int|
        0 <= k < permits.len() ==> (view matches Some(owner) && owner.object == #[trigger] permits[k])
            || address_space::holds_object(space.views, permits[k])
}

/// Gives the permits to write back: the object that each goes back to.
pub fn release_reclaimed_permits(space: &BoundAddressSpace, reclaimed: &Reclaimed) -> (r: Vec<u64>)
    requires
        space.wf(),
        permits_known(space@, reclaimed.view, reclaimed.permits@),
    ensures
        r@.len() == reclaimed.permits@.len(),
        forall|k: int|
            0 <= k < r@.len() ==> core_behind(
                space@,
                reclaimed.view,
                reclaimed.permits@[k],
                #[trigger] r@[k],
            ),
{
    let mut cores: Vec<u64> = Vec::new();
    let mut k: usize = 0;
    while k < reclaimed.permits.len()
        invariant
            space.wf(),
            permits_known(space@, reclaimed.view, reclaimed.permits@),
            k <= reclaimed.permits@.len(),
            cores@.len() == k,
            forall|i: int|
                0 <= i < k ==> core_behind(
                    space@,
                    reclaimed.view,
                    reclaimed.permits@[i],
                    #[trigger] cores@[i],
                ),
        decreases reclaimed.permits@.len() - k,
    {
        let object: u64 = reclaimed.permits[k];
        assert(object == reclaimed.permits@[k as int]);
        let own: Option<u64> = match reclaimed.view {
            Some(owner) => if owner.object == object {
                Some(owner.core)
            } else {
                None
            },
            None => None,
        };
        let core: u64 = match own {
            Some(core) => core,
            None => space.view_core(object),
        };
        assert(core_behind(space@, reclaimed.view, object, core));
        cores.push(core);
        k = k + 1;
    }
    cores
}

/// Completes a plan with table frames: `funded` is what funding them gave, for `parts`
/// parts; `prepared` what the page table made of each, `room` whether there is memory to
/// list that. Whatever fails, the plan is over and all that it had comes back.
pub fn fund_and_complete_running(
    space: &mut BoundAddressSpace,
    plan: PreparedChange,
    parts: usize,
    funded: Result<usize, SpaceError>,
    room: bool,
    prepared: &Vec<Result<(), MapError>>,
) -> (r: Result<PreparedChange, (SystemCallError, Reclaimed)>)
    requires
        old(space).wf(),
        old(space)@.busy,
    ensures
        final(space).wf(),
        final(space)@ == (SpaceView { busy: r is Ok, ..old(space)@ }),
        match r {
            Ok(change) => funded == Ok::<usize, SpaceError>(parts) && room
                && address_space::first_refusal(prepared@, 0) is None && change == plan,
            Err((error, reclaimed)) => gives_back(plan, reclaimed) && match funded {
                Err(refusal) => error == space::late_reported(refusal),
                Ok(count) => if count != parts || !room {
                    error == space::late_reported(SpaceError::NoFrame)
                } else {
                    address_space::first_refusal(prepared@, 0) matches Some(refusal) && error
                        == space::late_reported(address_space::table_refusal(refusal))
                },
            },
        },
{
    let count: usize = match funded {
        Err(error) => {
            let reclaimed = rollback_memory_change(space, plan);
            return Err((space::post_validate_error(error), reclaimed));
        },
        Ok(count) => count,
    };
    match space.complete_memory_change(parts, count, room, prepared) {
        Ok(_) => Ok(plan),
        Err(error) => {
            let reclaimed = Reclaimed {
                backing: plan.backing,
                view: plan.view,
                permits: plan.permits,
            };
            Err((space::post_validate_error(error), reclaimed))
        },
    }
}

/// Where the answer of a change goes.
#[derive(Clone, Copy, Debug, PartialEq, Eq, Structural)]
pub enum ChangeOutput {
    /// The slot that the caller of a map named.
    MapResult,
    Nothing,
}

/// A change that is committed.
pub struct StartedChange {
    /// What the ledger was asked for.
    pub asked: LedgerChange,
    /// The runs of an object that were entered in the page table.
    pub spans: Vec<InstallSpan>,
    /// The harts to tell.
    pub synchronization: ShootdownSynchronization,
    /// The caller still owes its answer.
    pub owes_result: bool,
    /// The objects of which views are taken away.
    pub retiring: Vec<ObjectView>,
}

/// Why a change cannot be committed. `before` is the process when harts are reserved, `now`
/// when the change is committed.
pub open spec fn start_refusal(
    completion: Result<(), SystemCallError>,
    shootdown: Result<shootdown::PreparedShootdown, PrepareShootdownError>,
    spent: bool,
    still: bool,
) -> Option<SystemCallError> {
    if completion is Err {
        Some(completion->Err_0)
    } else if shootdown is Err {
        Some(
            match shootdown->Err_0 {
                PrepareShootdownError::NotRunning => SystemCallError::ObjectClosed,
                PrepareShootdownError::Busy => SystemCallError::ObjectBusy,
                PrepareShootdownError::InvalidTargets => SystemCallError::InternalError,
                PrepareShootdownError::OutOfMemory => SystemCallError::OutOfMemory,
            },
        )
    } else if spent || !still {
        Some(SystemCallError::ObjectBusy)
    } else {
        None
    }
}

/// Preparing a shootdown, as [`shootdown::prepare_shootdown`] does it.
pub open spec fn shootdown_for(
    lifecycle: Lifecycle,
    reserved: Result<(), ReserveError>,
) -> Result<shootdown::PreparedShootdown, PrepareShootdownError> {
    if !(lifecycle@.state is Running) {
        Err(PrepareShootdownError::NotRunning)
    } else if lifecycle@.active != 0 && reserved is Err {
        Err(shootdown::reserve_refusal(reserved->Err_0))
    } else {
        Ok(
            shootdown::PreparedShootdown {
                execution: crate::lifecycle::ExecutionSnapshot {
                    sequence: lifecycle@.execution_sequence,
                    active: lifecycle@.active,
                },
                remote: lifecycle@.active != 0,
            },
        )
    }
}

/// The harts to tell of a change of `pages` pages from page `vpn` on.
pub open spec fn to_tell(
    epochs: AddressSpaceEpochs,
    lifecycle: Lifecycle,
    vpn: usize,
    pages: usize,
    instruction: bool,
) -> ShootdownSynchronization {
    if lifecycle@.active != 0 {
        ShootdownSynchronization::Remote(
            FenceRequest {
                identity: epochs.identity,
                translation: epochs.changed(instruction).translation,
                instruction: if instruction {
                    epochs.changed(instruction).instruction
                } else {
                    0
                },
                start_vpn: vpn,
                page_count: pages,
            },
        )
    } else {
        ShootdownSynchronization::Immediate
    }
}

/// The address space with a view in it, for which a lease was handed out.
pub open spec fn view_mapped(before: SpaceView, after: SpaceView, view: ObjectView) -> bool {
    &&& !after.busy
    &&& after.backings == before.backings
    &&& after.next_backing == before.next_backing
    &&& after.next_lease == before.next_lease + 1
    &&& after.image_end == before.image_end
    &&& address_space::holds_object(before.views, view.object) ==> after.views == before.views
    &&& !address_space::holds_object(before.views, view.object) ==> exists|i: int|
        0 <= i <= before.views.len() && after.views == #[trigger] before.views.insert(i, view)
}

/// The address space once a change is committed.
pub open spec fn committed(before: SpaceView, after: SpaceView, change: PreparedChange) -> bool {
    &&& !after.busy
    &&& after.next_backing == before.next_backing
    &&& after.next_lease == before.next_lease
    &&& after.backings == match change.backing {
        Some(backing) => before.backings.push(backing@),
        None => before.backings,
    }
    &&& after.image_end == match change.image_end {
        Some(end) => if before.image_end < end {
            end
        } else {
            before.image_end
        },
        None => before.image_end,
    }
    &&& match change.view {
        Some(view) => {
            &&& address_space::holds_object(before.views, view.object) ==> after.views
                == before.views
            &&& !address_space::holds_object(before.views, view.object) ==> exists|i: int|
                0 <= i <= before.views.len() && after.views == #[trigger] before.views.insert(
                    i,
                    view,
                )
        },
        None => after.views == before.views,
    }
}

/// The change can be committed to the address space.
pub open spec fn committable(space: SpaceView, change: PreparedChange) -> bool {
    &&& space.busy
    &&& change.backing matches Some(b) ==> b.wf() && b@.extents.len() > 0 && b@.identity
        < space.next_backing && forall|i: int|
        0 <= i < space.backings.len() ==> (#[trigger] space.backings[i]).identity < b@.identity
    &&& forall|i: int|
        0 <= i < change.fragments@.len() && address_space::fragment_object(
            #[trigger] change.fragments@[i],
        ) is Some ==> address_space::holds_object(
            space.views,
            address_space::fragment_object(change.fragments@[i])->0,
        )
}

/// Commits a change to a process that runs, of the pages `range`. `completion` is what
/// preparing the end of the change gave, `reserved` what reserving calls to the harts gave
/// that execute the process; `before` is the process then, `now` at the commit. If anything
/// fails nothing has happened, and what the change had comes back.
pub fn start_running_memory_change(
    space: &mut BoundAddressSpace,
    epochs: &mut AddressSpaceEpochs,
    change: PreparedChange,
    range: PageRange,
    instruction: bool,
    output: ChangeOutput,
    completion: Result<(), SystemCallError>,
    before: &Lifecycle,
    reserved: Result<(), ReserveError>,
    now: &Lifecycle,
) -> (r: Result<StartedChange, (SystemCallError, Reclaimed)>)
    requires
        old(space).wf(),
        committable(old(space)@, change),
        range.wf(),
    ensures
        final(space).wf(),
        ({
            let prepared = shootdown_for(*before, reserved);
            let refusal = start_refusal(
                completion,
                prepared,
                old(epochs).spent(instruction),
                shootdown::current(now@, prepared->Ok_0.execution),
            );
            match r {
                Err((error, reclaimed)) => {
                    &&& refusal == Some(error)
                    &&& gives_back(change, reclaimed)
                    &&& final(space)@ == (SpaceView { busy: false, ..old(space)@ })
                    &&& *final(epochs) == *old(epochs)
                },
                Ok(started) => {
                    &&& refusal is None
                    &&& committed(old(space)@, final(space)@, change)
                    &&& *final(epochs) == old(epochs).changed(instruction)
                    &&& started.asked == change.asked
                    &&& started.spans == change.spans
                    &&& started.owes_result == (output is MapResult)
                    &&& address_space::names(
                        started.retiring@,
                        address_space::objects_of(change.fragments@),
                        old(space)@.views,
                    )
                    &&& started.synchronization == to_tell(
                        *old(epochs),
                        *before,
                        (range.start / PAGE_SIZE) as usize,
                        range.pages,
                        instruction,
                    )
                },
            }
        }),
{
    match completion {
        Err(error) => {
            let reclaimed = rollback_memory_change(space, change);
            return Err((error, reclaimed));
        },
        Ok(_) => {},
    }
    let prepared = match shootdown::prepare_shootdown(before, reserved) {
        Err(error) => {
            let reclaimed = rollback_memory_change(space, change);
            return Err((shootdown::map_shootdown_error(error), reclaimed));
        },
        Ok(prepared) => prepared,
    };
    let start_vpn: usize = range.start / PAGE_SIZE;
    let synchronization = match epochs.commit_shootdown(
        now,
        prepared,
        start_vpn,
        range.pages,
        instruction,
    ) {
        Err(_) => {
            let reclaimed = rollback_memory_change(space, change);
            return Err((SystemCallError::ObjectBusy, reclaimed));
        },
        Ok(synchronization) => synchronization,
    };
    let retiring = space.commit_change(
        change.backing,
        change.view,
        change.image_end,
        &change.fragments,
    );
    let owes_result: bool = match output {
        ChangeOutput::MapResult => true,
        ChangeOutput::Nothing => false,
    };
    Ok(
        StartedChange {
            asked: change.asked,
            spans: change.spans,
            synchronization,
            owes_result,
            retiring,
        },
    )
}

/// The tables of a change are funded exactly if those of every part are; else the first failure of
/// the first part that has one is told.
pub proof fn first_unfunded_part_counts(parts: Seq<Vec<Result<usize, FundError>>>, from: int)
    requires
        0 <= from,
    ensures
        tables_refusal(parts, from) is None <==> forall|i: int|
            from <= i < parts.len() ==> bootstrap::first_unfunded((#[trigger] parts[i])@, 0) is None,
        tables_refusal(parts, from) is Some ==> exists|i: int|
            {
                &&& from <= i < parts.len()
                &&& bootstrap::first_unfunded((#[trigger] parts[i])@, 0) == tables_refusal(
                    parts,
                    from,
                )
                &&& forall|j: int|
                    from <= j < i ==> bootstrap::first_unfunded(
                        (#[trigger] parts[j])@,
                        0,
                    ) is None
            },
    decreases parts.len() - from,
{
    if from < parts.len() {
        first_unfunded_part_counts(parts, from + 1);
        if bootstrap::first_unfunded(parts[from]@, 0) is None {
            if tables_refusal(parts, from + 1) is Some {
                let i = choose|i: int|
                    {
                        &&& from + 1 <= i < parts.len()
                        &&& bootstrap::first_unfunded((#[trigger] parts[i])@, 0) == tables_refusal(
                            parts,
                            from + 1,
                        )
                        &&& forall|j: int|
                            from + 1 <= j < i ==> bootstrap::first_unfunded(
                                (#[trigger] parts[j])@,
                                0,
                            ) is None
                    };
                assert(bootstrap::first_unfunded(parts[i]@, 0) == tables_refusal(parts, from));
            }
        } else {
            assert(bootstrap::first_unfunded(parts[from]@, 0) == tables_refusal(parts, from));
        }
    }
}

/// A change starts exactly if its end is prepared, the harts are reserved, the epochs are not spent
/// and the process is as it was; a process that does not run is closed, and one that changed
/// meanwhile is busy.
pub proof fn changes_start_on_a_quiet_process(
    completion: Result<(), SystemCallError>,
    shootdown: Result<shootdown::PreparedShootdown, PrepareShootdownError>,
    spent: bool,
    still: bool,
)
    ensures
        start_refusal(completion, shootdown, spent, still) is None <==> completion is Ok
            && shootdown is Ok && !spent && still,
        completion is Err ==> start_refusal(completion, shootdown, spent, still) == Some(
            completion->Err_0,
        ),
        completion is Ok && shootdown is Ok && (spent || !still) ==> start_refusal(
            completion,
            shootdown,
            spent,
            still,
        ) == Some(SystemCallError::ObjectBusy),
        completion is Ok && shootdown == Err::<shootdown::PreparedShootdown, _>(
            PrepareShootdownError::NotRunning,
        ) ==> start_refusal(completion, shootdown, spent, still) == Some(
            SystemCallError::ObjectClosed,
        ),
{
}

/// A shootdown is prepared exactly for a process that runs, and needs the harts only if one executes
/// it; it remembers the process as it is.
pub proof fn shootdowns_remember_the_process(
    lifecycle: Lifecycle,
    reserved: Result<(), ReserveError>,
)
    ensures
        shootdown_for(lifecycle, reserved) is Ok <==> lifecycle@.state is Running && (
        lifecycle@.active == 0 || reserved is Ok),
        shootdown_for(lifecycle, reserved) matches Ok(prepared) ==> {
            &&& prepared.execution.sequence == lifecycle@.execution_sequence
            &&& prepared.execution.active == lifecycle@.active
            &&& prepared.remote <==> lifecycle@.active != 0
            &&& shootdown::current(lifecycle@, prepared.execution)
        },
        !(lifecycle@.state is Running) ==> shootdown_for(lifecycle, reserved) == Err::<
            shootdown::PreparedShootdown,
            _,
        >(PrepareShootdownError::NotRunning),
{
}

/// Harts are told exactly if one executes the process: of this address space, of the pages changed,
/// and of the epoch that the change leads to; of instructions only if the change concerns them.
pub proof fn harts_are_told_of_the_change(
    epochs: AddressSpaceEpochs,
    lifecycle: Lifecycle,
    vpn: usize,
    pages: usize,
    instruction: bool,
)
    requires
        !epochs.spent(instruction),
    ensures
        match to_tell(epochs, lifecycle, vpn, pages, instruction) {
            ShootdownSynchronization::Remote(request) => {
                &&& lifecycle@.active != 0
                &&& request.identity == epochs.identity
                &&& request.translation == epochs.translation + 1
                &&& request.instruction == if instruction {
                    epochs.instruction + 1
                } else {
                    0
                }
                &&& request.start_vpn == vpn && request.page_count == pages
            },
            ShootdownSynchronization::Immediate => lifecycle@.active == 0,
        },
{
}

/// A commit brings what the change has and nothing else: its backing behind all others, its object
/// if it is not held yet, and the end of the image if that is further; the space is idle again.
pub proof fn commits_bring_what_the_change_has(
    before: SpaceView,
    after: SpaceView,
    change: PreparedChange,
)
    requires
        committed(before, after, change),
    ensures
        !after.busy && after.next_backing == before.next_backing && after.next_lease
            == before.next_lease,
        change.backing is None ==> after.backings == before.backings,
        change.backing matches Some(backing) ==> after.backings.drop_last() == before.backings
            && after.backings.last() == backing@ && after.backings.len() == before.backings.len()
            + 1,
        after.image_end >= before.image_end,
        change.image_end matches Some(end) ==> after.image_end >= end && (after.image_end == end
            || after.image_end == before.image_end),
        change.image_end is None ==> after.image_end == before.image_end,
        change.view is None ==> after.views == before.views,
        change.view matches Some(view) ==> address_space::holds_object(after.views, view.object),
        forall|k: int|
            0 <= k < before.views.len() ==> after.views.contains(#[trigger] before.views[k]),
{
    if let Some(backing) = change.backing {
        assert(before.backings.push(backing@).drop_last() =~= before.backings);
    }
    if let Some(view) = change.view {
        if address_space::holds_object(before.views, view.object) {
            let i = choose|i: int| address_space::view_at(before.views, i, view.object);
            assert(address_space::view_at(after.views, i, view.object));
        } else {
            let i = choose|i: int|
                0 <= i <= before.views.len() && after.views == #[trigger] before.views.insert(
                    i,
                    view,
                );
            assert(address_space::view_at(after.views, i, view.object));
            assert forall|k: int| 0 <= k < before.views.len() implies after.views.contains(
                #[trigger] before.views[k],
            ) by {
                if k < i {
                    assert(after.views[k] == before.views[k]);
                } else {
                    assert(after.views[k + 1] == before.views[k]);
                }
            }
        }
    }
}

/// A change that is called off comes back whole: its backing, its object and its permits.
pub proof fn changes_come_back_whole(change: PreparedChange, reclaimed: Reclaimed)
    requires
        gives_back(change, reclaimed),
    ensures
        reclaimed.backing == change.backing,
        reclaimed.view == change.view,
        reclaimed.permits == change.permits,
{
}

/// A view that is mapped is held afterwards, once, and so is all that was held before; one lease is
/// used up, and no backing changes.
pub proof fn mapped_views_are_held(before: SpaceView, after: SpaceView, view: ObjectView)
    requires
        view_mapped(before, after, view),
    ensures
        address_space::holds_object(after.views, view.object),
        forall|k: int|
            0 <= k < before.views.len() ==> after.views.contains(#[trigger] before.views[k]),
        after.views.len() == before.views.len() + (if address_space::holds_object(
            before.views,
            view.object,
        ) {
            0int
        } else {
            1
        }),
        after.next_lease == before.next_lease + 1 && after.backings == before.backings && !after.busy
            && after.next_backing == before.next_backing && after.image_end == before.image_end,
{
    if address_space::holds_object(before.views, view.object) {
        let i = choose|i: int| address_space::view_at(before.views, i, view.object);
        assert(address_space::view_at(after.views, i, view.object));
    } else {
        let i = choose|i: int|
            0 <= i <= before.views.len() && after.views == #[trigger] before.views.insert(i, view);
        assert(address_space::view_at(after.views, i, view.object));
        assert forall|k: int| 0 <= k < before.views.len() implies after.views.contains(
            #[trigger] before.views[k],
        ) by {
            if k < i {
                assert(after.views[k] == before.views[k]);
            } else {
                assert(after.views[k + 1] == before.views[k]);
            }
        }
    }
}

/// What can be committed: the space is busy with the change, its backing is new, and every object of
/// which something is taken away is held.
pub proof fn commits_know_their_objects(space: SpaceView, change: PreparedChange, i: int)
    requires
        committable(space, change),
        0 <= i < change.fragments@.len(),
    ensures
        space.busy,
        address_space::fragment_object(change.fragments@[i]) matches Some(object)
            ==> address_space::holds_object(space.views, object),
        change.backing matches Some(backing) ==> backing@.identity < space.next_backing
            && forall|k: int|
            0 <= k < space.backings.len() ==> (#[trigger] space.backings[k]).identity
                != backing@.identity,
{
}

/// The object behind a permit is the one that the change was to bring, if that is the one, and else
/// the one that the address space holds.
pub proof fn permits_have_their_object(
    space: SpaceView,
    view: Option<ObjectView>,
    object: u64,
    core: u64,
)
    requires
        core_behind(space, view, object, core),
    ensures
        view matches Some(owner) ==> (owner.object == object ==> core == owner.core),
        !(view matches Some(owner) && owner.object == object) ==> space.views.contains(
            ObjectView { object, core },
        ),
{
    if !(view matches Some(owner) && owner.object == object) {
        let i = choose|i: int| #[trigger]
            address_space::view_at(space.views, i, object) && core == space.views[i].core;
        assert(space.views[i] == (ObjectView { object, core }));
    }
}

} // verus!
