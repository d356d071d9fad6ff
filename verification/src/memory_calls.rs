//! Mapping memory, taking it away and changing its protection, from the request to the
//! committed change. Each happens whole or not at all.
use vstd::prelude::*;

use crate::address_space;
use crate::address_space::{BoundAddressSpace, MapLayout, ObjectView, SpaceStanding, SpaceView};
use crate::backing;
use crate::backing::{BackingState, OwnedBacking};
use crate::error::SystemCallError;
use crate::handle;
use crate::handle::{ProcessHandleEntry, TableError};
use crate::lifecycle::{Lifecycle, LifecycleView};
use crate::map_intent;
use crate::map_intent::{AnonymousClass, LedgerChange, MapBacking, MapIntent};
use crate::memory_change;
use crate::memory_change::ProtectIntent;
use crate::memory_object;
use crate::memory_object::{CoreView, MemoryObjectCore, ObjectError, Protection};
use crate::object::{HandleRole, ObjectKind};
use crate::process::PAGE_SIZE;
use crate::region;
use crate::region::{PageRange, RegionOwner, RetiringFragment};
use crate::resources::Counter;
use crate::running_change;
use crate::running_change::{ChangeOutput, PreparedChange, Reclaimed, StartedChange};
use crate::shootdown;
use crate::shootdown::{AddressSpaceEpochs, ReserveError};
use crate::space;
use crate::space::{ChangeError, MapError, SpaceError};
use crate::view_permits;
use crate::view_permits::PermitRequirement;

verus! {

/// What a plan met with on its way to the commit. Only what is reached counts.
pub struct FinishOutcomes {
    /// How many parts the change has.
    pub parts: usize,
    /// For how many of them funding tables gave frames.
    pub funded: Result<usize, SpaceError>,
    pub change_room: bool,
    /// What the page table made of each part.
    pub prepared: Vec<Result<(), MapError>>,
    /// What preparing the end of the change gave.
    pub completion: Result<(), SystemCallError>,
    /// What reserving calls to the harts gave that execute the process.
    pub harts: Result<(), ReserveError>,
}

/// Why a plan does not come to its commit. `before` is the process when harts are reserved,
/// `now` when the change is committed.
pub open spec fn finish_refusal(
    epochs: AddressSpaceEpochs,
    before: Lifecycle,
    now: LifecycleView,
    instruction: bool,
    f: FinishOutcomes,
) -> Option<SystemCallError> {
    let shootdown = running_change::shootdown_for(before, f.harts);
    if f.funded is Err {
        Some(space::late_reported(f.funded->Err_0))
    } else if f.funded->Ok_0 != f.parts || !f.change_room {
        Some(SystemCallError::OutOfMemory)
    } else if address_space::first_refusal(f.prepared@, 0) is Some {
        Some(
            space::late_reported(
                address_space::table_refusal(address_space::first_refusal(f.prepared@, 0)->0),
            ),
        )
    } else {
        running_change::start_refusal(
            f.completion,
            shootdown,
            epochs.spent(instruction),
            shootdown::current(now, shootdown->Ok_0.execution),
        )
    }
}

/// Completes a plan and commits the change.
fn finish(
    space: &mut BoundAddressSpace,
    epochs: &mut AddressSpaceEpochs,
    before: &Lifecycle,
    now: &Lifecycle,
    plan: PreparedChange,
    range: PageRange,
    instruction: bool,
    output: ChangeOutput,
    f: &FinishOutcomes,
) -> (r: Result<StartedChange, (SystemCallError, Reclaimed)>)
    requires
        old(space).wf(),
        running_change::committable(old(space)@, plan),
        range.wf(),
    ensures
        final(space).wf(),
        ({
            let refusal = finish_refusal(*old(epochs), *before, now@, instruction, *f);
            match r {
                Err((error, reclaimed)) => {
                    &&& refusal == Some(error)
                    &&& running_change::gives_back(plan, reclaimed)
                    &&& final(space)@ == (SpaceView { busy: false, ..old(space)@ })
                    &&& *final(epochs) == *old(epochs)
                },
                Ok(started) => {
                    &&& refusal is None
                    &&& running_change::committed(old(space)@, final(space)@, plan)
                    &&& *final(epochs) == old(epochs).changed(instruction)
                    &&& started.asked == plan.asked
                    &&& started.spans == plan.spans
                    &&& started.owes_result == (output is MapResult)
                    &&& started.synchronization == running_change::to_tell(
                        *old(epochs),
                        *before,
                        (range.start / PAGE_SIZE) as usize,
                        range.pages,
                        instruction,
                    )
                    &&& address_space::names(
                        started.retiring@,
                        address_space::objects_of(plan.fragments@),
                        old(space)@.views,
                    )
                },
            }
        }),
{
    match running_change::fund_and_complete_running(
        space,
        plan,
        f.parts,
        f.funded,
        f.change_room,
        &f.prepared,
    ) {
        Err(failure) => Err(failure),
        Ok(change) => running_change::start_running_memory_change(
            space,
            epochs,
            change,
            range,
            instruction,
            output,
            f.completion,
            before,
            f.harts,
            now,
        ),
    }
}

/// Brings a planned mapping to its commit; the caller is owed its answer. Where it was placed,
/// with its guards, is what the harts are told.
pub fn finish_running_map(
    space: &mut BoundAddressSpace,
    epochs: &mut AddressSpaceEpochs,
    before: &Lifecycle,
    now: &Lifecycle,
    plan: PreparedChange,
    layout: MapLayout,
    f: &FinishOutcomes,
) -> (r: Result<StartedChange, (SystemCallError, Reclaimed)>)
    requires
        old(space).wf(),
        running_change::committable(old(space)@, plan),
        layout.reservation.wf(),
    ensures
        final(space).wf(),
        ({
            let refusal = finish_refusal(*old(epochs), *before, now@, false, *f);
            match r {
                Err((error, reclaimed)) => {
                    &&& refusal == Some(error)
                    &&& running_change::gives_back(plan, reclaimed)
                    &&& final(space)@ == (SpaceView { busy: false, ..old(space)@ })
                    &&& *final(epochs) == *old(epochs)
                },
                Ok(started) => {
                    &&& refusal is None
                    &&& running_change::committed(old(space)@, final(space)@, plan)
                    &&& *final(epochs) == old(epochs).changed(false)
                    &&& started.asked == plan.asked
                    &&& started.spans == plan.spans
                    &&& started.owes_result
                    &&& started.synchronization == running_change::to_tell(
                        *old(epochs),
                        *before,
                        (layout.reservation.start / PAGE_SIZE) as usize,
                        layout.reservation.pages,
                        false,
                    )
                    &&& address_space::names(
                        started.retiring@,
                        address_space::objects_of(plan.fragments@),
                        old(space)@.views,
                    )
                },
            }
        }),
{
    finish(
        space,
        epochs,
        before,
        now,
        plan,
        layout.reservation,
        false,
        ChangeOutput::MapResult,
        f,
    )
}

/// What mapping anonymous memory met with until it was planned. Only what is reached counts.
pub struct AnonymousOutcomes {
    /// What the ledger says of the request before anything is funded.
    pub validated: Result<(), ChangeError>,
    /// The runs of frames that were funded, by first frame and length.
    pub runs: Result<Vec<(usize, usize)>, SpaceError>,
    /// How many slots for runs could be had.
    pub slots: usize,
    pub runs_room: bool,
    /// Where the ledger puts it once it is funded.
    pub placed: Result<MapLayout, ChangeError>,
    pub backing_room: bool,
    pub reserved: Result<(), ChangeError>,
    /// Whether the slot for the answer could be pinned down.
    pub pinned: Result<(), SystemCallError>,
    pub preflight: Result<(), SpaceError>,
}

/// Why the pages for anonymous memory are not had; `stood` is how the address space stood
/// when it was asked first.
pub open spec fn pages_refusal(
    stood: SpaceStanding,
    intent: MapIntent,
    o: AnonymousOutcomes,
) -> Option<SystemCallError> {
    match stood.map_result(o.validated) {
        Err(error) => Some(error),
        Ok(_) => match backing::allocate_refusal(
            intent.spec_pages(),
            o.runs,
            o.slots,
            o.runs_room,
        ) {
            Some(error) => Some(space::late_reported(error)),
            None => None,
        },
    }
}

/// Why anonymous memory whose pages are had does not enter the ledger.
pub open spec fn placing_refusal(
    space: SpaceView,
    intent: MapIntent,
    o: AnonymousOutcomes,
) -> Option<SystemCallError> {
    if space.busy {
        Some(SystemCallError::ObjectBusy)
    } else if !SpaceView::mintable(space.next_backing) {
        Some(SystemCallError::OutOfMemory)
    } else if o.placed is Err {
        Some(space::space_reported(space::change_refusal(o.placed->Err_0)))
    } else if intent.spec_pages() != (o.placed->Ok_0).usable.pages {
        Some(SystemCallError::IllegalArgument)
    } else if !o.backing_room {
        Some(SystemCallError::OutOfMemory)
    } else if o.reserved is Err {
        Some(space::space_reported(space::change_refusal(o.reserved->Err_0)))
    } else {
        None
    }
}

/// Why anonymous memory is not mapped; `space` is the address space when the change is
/// planned.
pub open spec fn anonymous_refusal(
    stood: SpaceStanding,
    space: SpaceView,
    epochs: AddressSpaceEpochs,
    before: Lifecycle,
    now: LifecycleView,
    intent: MapIntent,
    o: AnonymousOutcomes,
    f: FinishOutcomes,
) -> Option<SystemCallError> {
    if pages_refusal(stood, intent, o) is Some {
        pages_refusal(stood, intent, o)
    } else if placing_refusal(space, intent, o) is Some {
        placing_refusal(space, intent, o)
    } else if o.pinned is Err {
        Some(o.pinned->Err_0)
    } else if o.preflight is Err {
        Some(space::late_reported(o.preflight->Err_0))
    } else {
        finish_refusal(epochs, before, now, false, f)
    }
}

/// A mapping that failed.
pub struct MapFailure {
    pub error: SystemCallError,
    /// The pages that were had for it, to be given back.
    pub backing: Option<OwnedBacking>,
    /// The reservation in the ledger is to be rolled back.
    pub roll_back: bool,
}

/// Maps anonymous memory: its pages are had, the change is planned, given table frames and
/// committed. The pages are had outside the address space: `stood` is how it stood when it
/// was asked whether they are worth having, `space` the address space when the change is
/// planned, on which another change may have begun or ended meanwhile. If anything fails the
/// address space is as before, but for an identity that was handed out, and the pages come
/// back.
pub fn map_anonymous_source(
    stood: SpaceStanding,
    space: &mut BoundAddressSpace,
    epochs: &mut AddressSpaceEpochs,
    before: &Lifecycle,
    now: &Lifecycle,
    intent: &MapIntent,
    o: &AnonymousOutcomes,
    f: &FinishOutcomes,
) -> (r: Result<StartedChange, MapFailure>)
    requires
        old(space).wf(),
        intent.spec_pages() * PAGE_SIZE <= usize::MAX,
        o.runs matches Ok(runs) ==> backing::runs_fit(runs@, intent.spec_pages()),
        o.placed matches Ok(layout) ==> layout.reservation.wf(),
    ensures
        final(space).wf(),
        ({
            let funded = BackingState {
                identity: old(space)@.next_backing,
                pages: intent.spec_pages() as usize,
                extents: backing::laid_out(o.runs->Ok_0@),
            };
            let had = pages_refusal(stood, *intent, *o) is None;
            let refusal = anonymous_refusal(
                stood,
                old(space)@,
                *old(epochs),
                *before,
                now@,
                *intent,
                *o,
                *f,
            );
            match r {
                Err(failure) => {
                    &&& refusal == Some(failure.error)
                    &&& failure.backing is Some <==> had
                    &&& had ==> failure.backing->0@.extents == funded.extents
                    &&& failure.roll_back <==> had && placing_refusal(
                        old(space)@,
                        *intent,
                        *o,
                    ) is None
                    &&& final(space)@ == if had && !old(space)@.busy && SpaceView::mintable(
                        old(space)@.next_backing,
                    ) {
                        old(space)@.backing_minted()
                    } else {
                        old(space)@
                    }
                    &&& *final(epochs) == *old(epochs)
                },
                Ok(started) => {
                    &&& refusal is None
                    &&& final(space)@ == (SpaceView {
                        backings: old(space)@.backings.push(funded),
                        ..old(space)@.backing_minted()
                    })
                    &&& *final(epochs) == old(epochs).changed(false)
                    &&& started.asked == LedgerChange::Mapping(
                        map_intent::requested(
                            *intent,
                            RegionOwner::AddressSpace,
                            MapBacking::Anonymous {
                                identity: old(space)@.next_backing,
                                class: AnonymousClass::Data,
                            },
                        ),
                    )
                    &&& started.spans@.len() == 0
                    &&& started.owes_result
                    &&& started.retiring@.len() == 0
                    &&& started.synchronization == running_change::to_tell(
                        *old(epochs),
                        *before,
                        ((o.placed->Ok_0).reservation.start / PAGE_SIZE) as usize,
                        (o.placed->Ok_0).reservation.pages,
                        false,
                    )
                },
            }
        }),
{
    proof {
        space.wf_view();
    }
    match stood.validate_user_map(o.validated) {
        Err(error) => {
            return Err(MapFailure { error, backing: None, roll_back: false });
        },
        Ok(_) => {},
    }
    let pages: usize = intent.pages();
    let unbound = match backing::allocate(pages, &o.runs, o.slots, o.runs_room) {
        Err(error) => {
            return Err(
                MapFailure {
                    error: space::post_validate_error(error),
                    backing: None,
                    roll_back: false,
                },
            );
        },
        Ok(unbound) => unbound,
    };
    let plan = match space.plan_user_map(
        intent,
        pages,
        o.placed,
        o.backing_room,
        o.reserved,
        o.pinned,
        o.preflight,
    ) {
        Err(failure) => {
            return Err(
                MapFailure {
                    error: failure.error,
                    backing: Some(unbound),
                    roll_back: failure.roll_back,
                },
            );
        },
        Ok(plan) => plan,
    };
    let bound = unbound.bind(plan.identity);
    let ghost funded = bound@;
    let nothing: Vec<RetiringFragment> = Vec::new();
    let change = PreparedChange {
        asked: LedgerChange::Mapping(plan.request),
        spans: Vec::new(),
        backing: Some(bound),
        view: None,
        image_end: None,
        fragments: nothing,
        permits: Vec::new(),
    };
    match finish_running_map(space, epochs, before, now, change, plan.layout, f) {
        Err((error, reclaimed)) => {
            assert(space@ =~= old(space)@.backing_minted());
            Err(MapFailure { error, backing: reclaimed.backing, roll_back: true })
        },
        Ok(started) => {
            assert(space@ =~= (SpaceView {
                backings: old(space)@.backings.push(funded),
                ..old(space)@.backing_minted()
            }));
            Ok(started)
        },
    }
}

/// What a change of memory that is mapped met with until it was planned. Only what is reached
/// counts.
pub struct ExistingOutcomes {
    /// There is memory to list the permits to write.
    pub permits_room: bool,
    pub reserved: Result<(), ChangeError>,
    pub parts_room: bool,
    /// What the page table says of each part.
    pub preflights: Vec<Result<(), MapError>>,
}

/// Why the permits to write are not had.
pub open spec fn permits_refusal(
    cores: Seq<CoreView>,
    requirements: Seq<PermitRequirement>,
    room: bool,
) -> Option<SystemCallError> {
    let all = view_permits::outcome(cores, requirements, requirements.len() as int);
    if requirements.len() == 0 {
        None
    } else if view_permits::total(requirements) > usize::MAX {
        Some(SystemCallError::InternalError)
    } else if !room {
        Some(SystemCallError::OutOfMemory)
    } else if all is Err {
        Some(memory_object::object_reported(all->Err_0))
    } else {
        None
    }
}

/// Why the ledger and the page table do not take a change of memory that is mapped.
pub open spec fn preparing_refusal(space: SpaceView, o: ExistingOutcomes) -> Option<
    SystemCallError,
> {
    if space.busy {
        Some(SystemCallError::ObjectBusy)
    } else if o.reserved is Err {
        Some(space::late_reported(space::change_refusal(o.reserved->Err_0)))
    } else if !o.parts_room {
        Some(SystemCallError::OutOfMemory)
    } else if address_space::first_refusal(o.preflights@, 0) is Some {
        Some(
            space::late_reported(
                address_space::table_refusal(address_space::first_refusal(o.preflights@, 0)->0),
            ),
        )
    } else {
        None
    }
}

/// Why memory that is mapped does not change.
pub open spec fn existing_refusal(
    cores: Seq<CoreView>,
    requirements: Seq<PermitRequirement>,
    space: SpaceView,
    epochs: AddressSpaceEpochs,
    before: Lifecycle,
    now: LifecycleView,
    instruction: bool,
    o: ExistingOutcomes,
    f: FinishOutcomes,
) -> Option<SystemCallError> {
    if permits_refusal(cores, requirements, o.permits_room) is Some {
        permits_refusal(cores, requirements, o.permits_room)
    } else if preparing_refusal(space, o) is Some {
        preparing_refusal(space, o)
    } else {
        finish_refusal(epochs, before, now, instruction, f)
    }
}

/// What is taken away of objects is taken away of objects that the address space holds.
pub open spec fn fragments_known(space: SpaceView, fragments: Seq<RetiringFragment>) -> bool {
    forall|i: int|
        0 <= i < fragments.len() && address_space::fragment_object(
            #[trigger] fragments[i],
        ) is Some ==> address_space::holds_object(
            space.views,
            address_space::fragment_object(fragments[i])->0,
        )
}

/// The objects are in order, and the requirements name some of them.
pub open spec fn sources_known(
    cores: Seq<MemoryObjectCore>,
    requirements: Seq<PermitRequirement>,
) -> bool {
    &&& forall|i: int| 0 <= i < cores.len() ==> (#[trigger] cores[i]).wf()
    &&& forall|i: int|
        0 <= i < requirements.len() ==> (#[trigger] requirements[i]).source < cores.len()
}

/// A change that failed.
#[derive(Clone, Copy, Debug, PartialEq, Eq, Structural)]
pub struct ChangeFailure {
    pub error: SystemCallError,
    /// The reservation in the ledger is to be rolled back.
    pub roll_back: bool,
}

/// Gives back `count` places.
fn return_slices(slices: &mut Counter, count: usize)
    requires
        old(slices).wf(),
        count <= old(slices).used,
    ensures
        *final(slices) == (Counter { used: (old(slices).used - count) as usize, ..*old(slices) }),
{
    let mut left: usize = count;
    while left > 0
        invariant
            left <= count,
            slices.wf(),
            slices.limit == old(slices).limit,
            count <= old(slices).used,
            slices.used == old(slices).used - (count - left),
        decreases left,
    {
        slices.release();
        left = left - 1;
    }
}

/// Changes what is mapped already, the pages `range`: the permits to write that the parts
/// which remain need are had first. `asked` is what the ledger was asked for, `fragments` what
/// the ledger takes away, `taken` how many places for parts that are split off are held for
/// the change. If anything fails every object has its permits back, the places are free, and
/// nothing has changed.
pub fn start_existing_change(
    cores: &mut Vec<MemoryObjectCore>,
    requirements: &Vec<PermitRequirement>,
    slices: &mut Counter,
    taken: usize,
    space: &mut BoundAddressSpace,
    epochs: &mut AddressSpaceEpochs,
    before: &Lifecycle,
    now: &Lifecycle,
    asked: LedgerChange,
    fragments: Vec<RetiringFragment>,
    range: PageRange,
    instruction: bool,
    o: &ExistingOutcomes,
    f: &FinishOutcomes,
) -> (r: Result<StartedChange, ChangeFailure>)
    requires
        sources_known(old(cores)@, requirements@),
        old(slices).wf(),
        taken <= old(slices).used,
        old(space).wf(),
        fragments_known(old(space)@, fragments@),
        range.wf(),
    ensures
        sources_known(final(cores)@, requirements@),
        final(space).wf(),
        final(space)@ == old(space)@,
        ({
            let refusal = existing_refusal(
                view_permits::states(old(cores)@),
                requirements@,
                old(space)@,
                *old(epochs),
                *before,
                now@,
                instruction,
                *o,
                *f,
            );
            match r {
                Err(failure) => {
                    &&& refusal == Some(failure.error)
                    &&& failure.roll_back <==> permits_refusal(
                        view_permits::states(old(cores)@),
                        requirements@,
                        o.permits_room,
                    ) is None && !old(space)@.busy && o.reserved is Ok
                    &&& view_permits::states(final(cores)@) == view_permits::states(old(cores)@)
                    &&& *final(slices) == (Counter {
                        used: (old(slices).used - taken) as usize,
                        ..*old(slices)
                    })
                    &&& *final(epochs) == *old(epochs)
                },
                Ok(started) => {
                    &&& refusal is None
                    &&& view_permits::acquired(
                        view_permits::states(old(cores)@),
                        requirements@,
                        view_permits::states(final(cores)@),
                    )
                    &&& *final(slices) == *old(slices)
                    &&& *final(epochs) == old(epochs).changed(instruction)
                    &&& started.asked == asked
                    &&& started.spans@.len() == 0
                    &&& !started.owes_result
                    &&& started.synchronization == running_change::to_tell(
                        *old(epochs),
                        *before,
                        (range.start / PAGE_SIZE) as usize,
                        range.pages,
                        instruction,
                    )
                    &&& address_space::names(
                        started.retiring@,
                        address_space::objects_of(fragments@),
                        old(space)@.views,
                    )
                },
            }
        }),
{
    let ghost start = view_permits::states(cores@);
    match view_permits::acquire_view_permits(cores, requirements, o.permits_room) {
        Err(error) => {
            return_slices(slices, taken);
            assert(cores@.len() == start.len());
            return Err(ChangeFailure { error, roll_back: false });
        },
        Ok(_) => {},
    }
    proof {
        view_permits::outcome_keeps_length(start, requirements@, requirements@.len() as int);
        assert(cores@.len() == start.len());
        assert(view_permits::acquired(start, requirements@, view_permits::states(cores@)));
    }
    match space.prepare_user_existing_change(o.reserved, o.parts_room, &o.preflights) {
        Err(failure) => {
            view_permits::release_view_permits(cores, requirements);
            return_slices(slices, taken);
            assert(cores@.len() == start.len());
            return Err(
                ChangeFailure {
                    error: space::post_validate_error(failure.error),
                    roll_back: failure.roll_back,
                },
            );
        },
        Ok(_) => {},
    }
    let plan = PreparedChange {
        asked,
        spans: Vec::new(),
        backing: None,
        view: None,
        image_end: None,
        fragments,
        permits: Vec::new(),
    };
    match finish(
        space,
        epochs,
        before,
        now,
        plan,
        range,
        instruction,
        ChangeOutput::Nothing,
        f,
    ) {
        Err((error, _)) => {
            view_permits::release_view_permits(cores, requirements);
            return_slices(slices, taken);
            assert(cores@.len() == start.len());
            assert(space@ =~= old(space)@);
            Err(ChangeFailure { error, roll_back: true })
        },
        Ok(started) => {
            assert(space@ =~= old(space)@);
            Ok(started)
        },
    }
}

/// The pages that a caller names.
pub open spec fn named_pages(address: u64, bytes: u64) -> PageRange {
    PageRange { start: address as usize, pages: (bytes / PAGE_SIZE as u64) as usize }
}

/// Why the pages that a caller names cannot change; `stood` is how the address space stood
/// when it was asked first.
pub open spec fn named_refusal(
    stood: SpaceStanding,
    address: u64,
    bytes: u64,
    validated: Result<Vec<PermitRequirement>, ChangeError>,
    room: bool,
) -> Option<SystemCallError> {
    if !region::names_pages(address, bytes) {
        Some(SystemCallError::IllegalArgument)
    } else {
        stood.change_refused(validated, room)
    }
}

/// Takes memory away, the `bytes` bytes from `address` on. `validated` is what the ledger says
/// of it: the permits to write that the parts which remain need; `room` whether they can be
/// listed. Of `slices`, places for parts that it may split off, `splits` are taken, if there
/// is memory for that, `slices_room`. The permits are had outside the address space: `stood`
/// is how it stood when the ledger was asked, `space` the address space when the change is
/// planned, on which another change may have begun or ended meanwhile. If anything fails
/// nothing has changed.
pub fn memory_unmap(
    cores: &mut Vec<MemoryObjectCore>,
    slices: &mut Counter,
    stood: SpaceStanding,
    space: &mut BoundAddressSpace,
    epochs: &mut AddressSpaceEpochs,
    before: &Lifecycle,
    now: &Lifecycle,
    address: u64,
    bytes: u64,
    validated: Result<Vec<PermitRequirement>, ChangeError>,
    room: bool,
    splits: usize,
    slices_room: bool,
    fragments: Vec<RetiringFragment>,
    o: &ExistingOutcomes,
    f: &FinishOutcomes,
) -> (r: Result<StartedChange, ChangeFailure>)
    requires
        validated matches Ok(needed) ==> sources_known(old(cores)@, needed@),
        old(slices).wf(),
        old(space).wf(),
        fragments_known(old(space)@, fragments@),
    ensures
        validated matches Ok(needed) ==> sources_known(final(cores)@, needed@),
        final(slices).wf(),
        final(space).wf(),
        final(space)@ == old(space)@,
        ({
            let early = named_refusal(stood, address, bytes, validated, room);
            let full = old(slices).used + splits > old(slices).limit;
            let refusal = existing_refusal(
                view_permits::states(old(cores)@),
                validated->Ok_0@,
                old(space)@,
                *old(epochs),
                *before,
                now@,
                false,
                *o,
                *f,
            );
            match r {
                Err(failure) => {
                    &&& Some(failure.error) == if early is Some {
                        early
                    } else if !slices_room {
                        Some(SystemCallError::OutOfMemory)
                    } else if full {
                        Some(SystemCallError::ReachLimit)
                    } else {
                        refusal
                    }
                    &&& failure.roll_back <==> early is None && slices_room && !full
                        && permits_refusal(
                        view_permits::states(old(cores)@),
                        validated->Ok_0@,
                        o.permits_room,
                    ) is None && !old(space)@.busy && o.reserved is Ok
                    &&& view_permits::states(final(cores)@) == view_permits::states(old(cores)@)
                    &&& *final(slices) == *old(slices)
                    &&& *final(epochs) == *old(epochs)
                },
                Ok(started) => {
                    &&& early is None && slices_room && !full && refusal is None
                    &&& view_permits::acquired(
                        view_permits::states(old(cores)@),
                        validated->Ok_0@,
                        view_permits::states(final(cores)@),
                    )
                    &&& *final(slices) == (Counter {
                        used: (old(slices).used + splits) as usize,
                        ..*old(slices)
                    })
                    &&& *final(epochs) == old(epochs).changed(false)
                    &&& started.asked == (LedgerChange::Unmap {
                        range: named_pages(address, bytes),
                        authority: RegionOwner::AddressSpace,
                    })
                    &&& !started.owes_result
                    &&& started.synchronization == running_change::to_tell(
                        *old(epochs),
                        *before,
                        (address / PAGE_SIZE as u64) as usize,
                        (bytes / PAGE_SIZE as u64) as usize,
                        false,
                    )
                    &&& address_space::names(
                        started.retiring@,
                        address_space::objects_of(fragments@),
                        old(space)@.views,
                    )
                },
            }
        }),
{
    let range = match region::public_page_range(address, bytes) {
        Err(error) => {
            return Err(ChangeFailure { error, roll_back: false });
        },
        Ok(range) => range,
    };
    let needed = match stood.validate_user_change(validated, room) {
        Err(error) => {
            return Err(ChangeFailure { error, roll_back: false });
        },
        Ok(needed) => needed,
    };
    match running_change::reserve_backing_split_metadata(slices, splits, slices_room) {
        Err(error) => {
            return Err(
                ChangeFailure { error: space::post_validate_error(error), roll_back: false },
            );
        },
        Ok(_) => {},
    }
    start_existing_change(
        cores,
        &needed,
        slices,
        splits,
        space,
        epochs,
        before,
        now,
        LedgerChange::Unmap { range, authority: RegionOwner::AddressSpace },
        fragments,
        range,
        false,
        o,
        f,
    )
}

/// Changes the protection of the `bytes` bytes from `address` on, to `protection` if the
/// caller's number has a meaning. `intents` are the changes to the page table; harts forget
/// code only if one of them concerns code. The other arguments are those of
/// [`memory_unmap`]. If anything fails nothing has changed.
pub fn memory_protect(
    cores: &mut Vec<MemoryObjectCore>,
    stood: SpaceStanding,
    space: &mut BoundAddressSpace,
    epochs: &mut AddressSpaceEpochs,
    before: &Lifecycle,
    now: &Lifecycle,
    address: u64,
    bytes: u64,
    protection: Option<Protection>,
    validated: Result<Vec<PermitRequirement>, ChangeError>,
    room: bool,
    intents: &Vec<ProtectIntent>,
    fragments: Vec<RetiringFragment>,
    o: &ExistingOutcomes,
    f: &FinishOutcomes,
) -> (r: Result<StartedChange, ChangeFailure>)
    requires
        validated matches Ok(needed) ==> sources_known(old(cores)@, needed@),
        old(space).wf(),
        fragments_known(old(space)@, fragments@),
    ensures
        validated matches Ok(needed) ==> sources_known(final(cores)@, needed@),
        final(space).wf(),
        final(space)@ == old(space)@,
        ({
            let early = named_refusal(stood, address, bytes, validated, room);
            let instruction = memory_change::concerns_code(intents@);
            let refusal = existing_refusal(
                view_permits::states(old(cores)@),
                validated->Ok_0@,
                old(space)@,
                *old(epochs),
                *before,
                now@,
                instruction,
                *o,
                *f,
            );
            match r {
                Err(failure) => {
                    &&& Some(failure.error) == if region::names_pages(address, bytes)
                        && protection is None {
                        Some(SystemCallError::IllegalArgument)
                    } else if early is Some {
                        early
                    } else {
                        refusal
                    }
                    &&& failure.roll_back <==> early is None && protection is Some
                        && permits_refusal(
                        view_permits::states(old(cores)@),
                        validated->Ok_0@,
                        o.permits_room,
                    ) is None && !old(space)@.busy && o.reserved is Ok
                    &&& view_permits::states(final(cores)@) == view_permits::states(old(cores)@)
                    &&& *final(epochs) == *old(epochs)
                },
                Ok(started) => {
                    &&& early is None && protection is Some && refusal is None
                    &&& view_permits::acquired(
                        view_permits::states(old(cores)@),
                        validated->Ok_0@,
                        view_permits::states(final(cores)@),
                    )
                    &&& *final(epochs) == old(epochs).changed(instruction)
                    &&& started.asked == (LedgerChange::Protect {
                        range: named_pages(address, bytes),
                        protection: protection->0,
                        authority: RegionOwner::AddressSpace,
                    })
                    &&& !started.owes_result
                    &&& started.synchronization == running_change::to_tell(
                        *old(epochs),
                        *before,
                        (address / PAGE_SIZE as u64) as usize,
                        (bytes / PAGE_SIZE as u64) as usize,
                        instruction,
                    )
                    &&& address_space::names(
                        started.retiring@,
                        address_space::objects_of(fragments@),
                        old(space)@.views,
                    )
                },
            }
        }),
{
    let range = match region::public_page_range(address, bytes) {
        Err(error) => {
            return Err(ChangeFailure { error, roll_back: false });
        },
        Ok(range) => range,
    };
    let wanted = match protection {
        None => {
            return Err(
                ChangeFailure { error: SystemCallError::IllegalArgument, roll_back: false },
            );
        },
        Some(wanted) => wanted,
    };
    let needed = match stood.validate_user_change(validated, room) {
        Err(error) => {
            return Err(ChangeFailure { error, roll_back: false });
        },
        Ok(needed) => needed,
    };
    let instruction: bool = memory_change::needs_instruction_fence(intents);
    let mut none = Counter::new(0);
    start_existing_change(
        cores,
        &needed,
        &mut none,
        0,
        space,
        epochs,
        before,
        now,
        LedgerChange::Protect {
            range,
            protection: wanted,
            authority: RegionOwner::AddressSpace,
        },
        fragments,
        range,
        instruction,
        o,
        f,
    )
}

/// What mapping a view of an object met with until it was planned. Only what is reached
/// counts.
pub struct ViewOutcomes {
    /// Whether the object admits the view.
    pub authorized: Result<(), ObjectError>,
    /// The runs of the object's frames behind what is asked for, by first frame and length;
    /// `None` if the object does not reach that far.
    pub spans: Option<Vec<(usize, usize)>>,
    /// There is memory to list the object's runs.
    pub runs_room: bool,
    /// Whether the address space may hold the object.
    pub holding: Result<(), SpaceError>,
    /// Where the ledger puts the view, and as which region.
    pub placed: Result<(MapLayout, u64), ChangeError>,
    pub reserved: Result<(), ChangeError>,
    pub parts_room: bool,
    /// Whether the slot for the answer could be pinned down.
    pub pinned: Result<(), SystemCallError>,
    pub preflight: Result<(), MapError>,
}

/// Why the object behind a handle grants no view.
pub open spec fn grant_refusal(
    core: CoreView,
    found: Result<ProcessHandleEntry, TableError>,
    protection: Protection,
    authorized: Result<(), ObjectError>,
) -> Option<SystemCallError> {
    let resolved = handle::resolve_result(
        found,
        ObjectKind::MemoryObject,
        HandleRole::MemoryObject,
    );
    let writes = protection == Protection::ReadWrite;
    if resolved is Err {
        Some(resolved->Err_0)
    } else if authorized is Err {
        Some(memory_object::object_reported(authorized->Err_0))
    } else if writes && !(core.state is Mutable) {
        Some(SystemCallError::ObjectBusy)
    } else if writes && core.permits >= core.permit_limit {
        Some(SystemCallError::ReachLimit)
    } else {
        None
    }
}

/// Why a view that was granted gets no lease of its own.
pub open spec fn shape_refusal(
    space: SpaceView,
    intent: MapIntent,
    offset: usize,
    o: ViewOutcomes,
) -> Option<SystemCallError> {
    let pages = backing::total_pages(o.spans->0@);
    if o.spans is None {
        Some(SystemCallError::IllegalArgument)
    } else if !o.runs_room {
        Some(SystemCallError::OutOfMemory)
    } else if o.holding is Err {
        Some(space::space_reported(o.holding->Err_0))
    } else if space.busy {
        Some(SystemCallError::ObjectBusy)
    } else if pages == 0 || pages != intent.spec_pages() || offset % PAGE_SIZE != 0 {
        Some(SystemCallError::IllegalArgument)
    } else if !SpaceView::mintable(space.next_lease) {
        Some(SystemCallError::OutOfMemory)
    } else {
        None
    }
}

/// Why a view with a lease is not mapped.
pub open spec fn leased_refusal(
    epochs: AddressSpaceEpochs,
    before: Lifecycle,
    now: LifecycleView,
    intent: MapIntent,
    o: ViewOutcomes,
    f: FinishOutcomes,
) -> Option<SystemCallError> {
    if o.placed is Err {
        Some(space::space_reported(space::change_refusal(o.placed->Err_0)))
    } else if o.reserved is Err {
        Some(space::space_reported(space::change_refusal(o.reserved->Err_0)))
    } else if !o.parts_room || (intent.result is Some && o.pinned is Err) {
        Some(SystemCallError::OutOfMemory)
    } else if o.preflight is Err {
        Some(space::space_reported(address_space::table_refusal(o.preflight->Err_0)))
    } else {
        finish_refusal(epochs, before, now, false, f)
    }
}

/// Maps a view, from `offset` on, of the object behind a handle; `found` is what the lookup
/// with [`memory_object::required_rights`] gave, `view` what the address space would hold of
/// the object. A view to write takes a permit of the object. If anything fails the object has
/// its permit back, and the address space is as before but for a lease that was handed out.
pub fn map_view(
    core: &mut MemoryObjectCore,
    space: &mut BoundAddressSpace,
    epochs: &mut AddressSpaceEpochs,
    before: &Lifecycle,
    now: &Lifecycle,
    found: Result<ProcessHandleEntry, TableError>,
    intent: &MapIntent,
    offset: usize,
    view: ObjectView,
    o: &ViewOutcomes,
    f: &FinishOutcomes,
) -> (r: Result<StartedChange, ChangeFailure>)
    requires
        old(core).wf(),
        old(space).wf(),
        o.placed matches Ok((layout, _)) ==> layout.reservation.wf(),
        o.spans matches Some(spans) ==> backing::total_pages(spans@) <= usize::MAX,
    ensures
        final(core).wf(),
        final(space).wf(),
        ({
            let granted = grant_refusal(old(core)@, found, intent.protection, o.authorized);
            let shaped = shape_refusal(old(space)@, *intent, offset, *o);
            let refusal = leased_refusal(*old(epochs), *before, now@, *intent, *o, *f);
            match r {
                Err(failure) => {
                    &&& Some(failure.error) == if granted is Some {
                        granted
                    } else if shaped is Some {
                        shaped
                    } else {
                        refusal
                    }
                    &&& failure.roll_back <==> granted is None && shaped is None && o.placed is Ok
                        && o.reserved is Ok
                    &&& final(core)@ == old(core)@
                    &&& final(space)@ == if granted is None && shaped is None {
                        old(space)@.lease_minted()
                    } else {
                        old(space)@
                    }
                    &&& *final(epochs) == *old(epochs)
                },
                Ok(started) => {
                    &&& granted is None && shaped is None && refusal is None
                    &&& final(core)@ == (CoreView {
                        permits: (old(core)@.permits + if intent.protection
                            == Protection::ReadWrite {
                            1int
                        } else {
                            0
                        }) as usize,
                        ..old(core)@
                    })
                    &&& running_change::view_mapped(old(space)@, final(space)@, view)
                    &&& *final(epochs) == old(epochs).changed(false)
                    &&& started.asked == LedgerChange::Mapping(
                        map_intent::requested(
                            *intent,
                            address_space::mapping_owner(
                                intent.authority,
                                old(space)@.next_lease,
                            ),
                            MapBacking::Object {
                                object: view.object,
                                maximum: intent.protection,
                                offset,
                            },
                        ),
                    )
                    &&& started.spans@ == backing::placed_spans(
                        (o.placed->Ok_0).0.usable.start as int / PAGE_SIZE as int,
                        o.spans->0@,
                    )
                    &&& started.owes_result
                    &&& started.retiring@.len() == 0
                    &&& started.synchronization == running_change::to_tell(
                        *old(epochs),
                        *before,
                        ((o.placed->Ok_0).0.reservation.start / PAGE_SIZE) as usize,
                        (o.placed->Ok_0).0.reservation.pages,
                        false,
                    )
                },
            }
        }),
{
    proof {
        core.wf_view();
    }
    match handle::resolve(found, ObjectKind::MemoryObject, HandleRole::MemoryObject) {
        Err(error) => {
            return Err(ChangeFailure { error, roll_back: false });
        },
        Ok(_) => {},
    }
    let permits: usize = match core.authorize(intent.protection, o.authorized) {
        Err(error) => {
            return Err(ChangeFailure { error, roll_back: false });
        },
        Ok(permits) => permits,
    };
    let shaped: Result<&Vec<(usize, usize)>, SystemCallError> = match &o.spans {
        None => Err(SystemCallError::IllegalArgument),
        Some(spans) => if !o.runs_room {
            Err(SystemCallError::OutOfMemory)
        } else {
            match o.holding {
                Err(error) => Err(space::map_space_error(error)),
                Ok(_) => Ok(spans),
            }
        },
    };
    let spans: &Vec<(usize, usize)> = match shaped {
        Err(error) => {
            core.cancel_writes(permits);
            assert(core@ =~= old(core)@);
            return Err(ChangeFailure { error, roll_back: false });
        },
        Ok(spans) => spans,
    };
    let planned = match space.plan_object_map(
        intent,
        view.object,
        offset,
        spans,
        intent.protection,
        o.placed,
        o.reserved,
        o.parts_room,
        o.pinned,
        o.preflight,
    ) {
        Err(failure) => {
            core.cancel_writes(permits);
            assert(core@ =~= old(core)@);
            return Err(
                ChangeFailure {
                    error: space::map_space_error(failure.error),
                    roll_back: failure.roll_back,
                },
            );
        },
        Ok(planned) => planned,
    };
    let layout = match o.placed {
        Ok((layout, _)) => layout,
        Err(_) => {
            return Err(ChangeFailure { error: SystemCallError::InternalError, roll_back: false });
        },
    };
    let nothing: Vec<RetiringFragment> = Vec::new();
    let plan = PreparedChange {
        asked: LedgerChange::Mapping(planned.request),
        spans: planned.spans,
        backing: None,
        view: Some(view),
        image_end: None,
        fragments: nothing,
        permits: Vec::new(),
    };
    match finish_running_map(space, epochs, before, now, plan, layout, f) {
        Err((error, _)) => {
            core.cancel_writes(permits);
            assert(core@ =~= old(core)@);
            assert(space@ =~= old(space)@.lease_minted());
            Err(ChangeFailure { error, roll_back: true })
        },
        Ok(started) => Ok(started),
    }
}

/// A plan comes to its commit exactly if there are tables for all its parts, the page table takes
/// them, nothing is short, and the process is as it was with its harts reserved. Failures behind
/// the caller's arguments are never the caller's: a bad segment there is the kernel's fault.
pub proof fn plans_finish_with_every_part(
    epochs: AddressSpaceEpochs,
    before: Lifecycle,
    now: LifecycleView,
    instruction: bool,
    f: FinishOutcomes,
)
    ensures
        finish_refusal(epochs, before, now, instruction, f) is None <==> {
            &&& f.funded matches Ok(parts) && parts == f.parts
            &&& f.change_room && f.completion is Ok
            &&& forall|i: int| 0 <= i < f.prepared@.len() ==> (#[trigger] f.prepared@[i]) is Ok
            &&& before@.state is Running && (before@.active == 0 || f.harts is Ok)
            &&& epochs.translation < u64::MAX && (!instruction || epochs.instruction < u64::MAX)
            &&& now.state is Running && now.execution_sequence == before@.execution_sequence
                && now.active == before@.active
        },
        f.funded == Err::<usize, _>(SpaceError::BadSegment) ==> finish_refusal(
            epochs,
            before,
            now,
            instruction,
            f,
        ) == Some(SystemCallError::InternalError),
        f.funded matches Ok(parts) ==> (parts != f.parts || !f.change_room ==> finish_refusal(
            epochs,
            before,
            now,
            instruction,
            f,
        ) == Some(SystemCallError::OutOfMemory)),
{
    address_space::first_refusal_counts(f.prepared@, 0);
}

/// The pages for anonymous memory are had exactly from an idle space that has an identity left, if
/// the ledger takes the request and the frames are had in runs that there are places for.
pub proof fn pages_are_had_if_nothing_refuses(
    stood: SpaceStanding,
    intent: MapIntent,
    o: AnonymousOutcomes,
)
    requires
        intent.bytes > 0,
    ensures
        pages_refusal(stood, intent, o) is None <==> !stood.busy && stood.next_backing != 0
            && o.validated is Ok && o.runs_room && (o.runs matches Ok(runs) && runs@.len()
            <= o.slots),
        stood.busy ==> pages_refusal(stood, intent, o) == Some(SystemCallError::ObjectBusy),
{
    map_intent::pages_are_just_enough(intent);
}

/// Anonymous memory whose pages are had enters the ledger exactly if the space is idle, an identity
/// can be had, the ledger puts it somewhere with just as many pages, and nothing is short.
pub proof fn placing_needs_just_as_many_pages(
    space: SpaceView,
    intent: MapIntent,
    o: AnonymousOutcomes,
)
    ensures
        placing_refusal(space, intent, o) is None <==> {
            &&& !space.busy && 0 < space.next_backing < u64::MAX
            &&& o.placed matches Ok(layout) && intent.bytes <= layout.usable.pages * 4096
                < intent.bytes + 4096
            &&& o.backing_room && o.reserved is Ok
        },
        space.busy ==> placing_refusal(space, intent, o) == Some(SystemCallError::ObjectBusy),
        !space.busy && !(0 < space.next_backing < u64::MAX) ==> placing_refusal(space, intent, o)
            == Some(SystemCallError::OutOfMemory),
{
    map_intent::pages_are_just_enough(intent);
}

/// Anonymous memory is mapped exactly if its pages are had, it enters the ledger, the place for the
/// answer is pinned down, the page table takes it and the plan comes to its commit; the first of
/// these that fails is told.
pub proof fn anonymous_memory_needs_every_step(
    stood: SpaceStanding,
    space: SpaceView,
    epochs: AddressSpaceEpochs,
    before: Lifecycle,
    now: LifecycleView,
    intent: MapIntent,
    o: AnonymousOutcomes,
    f: FinishOutcomes,
)
    ensures
        ({
            let refusal = anonymous_refusal(stood, space, epochs, before, now, intent, o, f);
            let had = pages_refusal(stood, intent, o);
            let placed = placing_refusal(space, intent, o);
            &&& refusal is None <==> had is None && placed is None && o.pinned is Ok
                && o.preflight is Ok && finish_refusal(epochs, before, now, false, f) is None
            &&& had is Some ==> refusal == had
            &&& had is None && placed is Some ==> refusal == placed
            &&& had is None && placed is None && o.pinned is Err ==> refusal == Some(
                o.pinned->Err_0,
            )
        }),
{
}

/// Permits to write are had exactly if none is needed, or the objects grant all of them and there is
/// memory to list them.
pub proof fn permits_are_all_had_or_none(
    cores: Seq<CoreView>,
    requirements: Seq<PermitRequirement>,
    room: bool,
)
    ensures
        permits_refusal(cores, requirements, room) is None <==> requirements.len() == 0 || (
        view_permits::total(requirements) <= usize::MAX && room && view_permits::outcome(
            cores,
            requirements,
            requirements.len() as int,
        ) is Ok),
        requirements.len() > 0 && view_permits::total(requirements) > usize::MAX ==> permits_refusal(
            cores,
            requirements,
            room,
        ) == Some(SystemCallError::InternalError),
{
}

/// A change of memory that is mapped is prepared exactly if the space is idle, the ledger takes it,
/// there is memory for its parts, and the page table takes each of them; it is made exactly if the
/// permits are had too and it comes to its commit.
pub proof fn existing_memory_needs_every_step(
    cores: Seq<CoreView>,
    requirements: Seq<PermitRequirement>,
    space: SpaceView,
    epochs: AddressSpaceEpochs,
    before: Lifecycle,
    now: LifecycleView,
    instruction: bool,
    o: ExistingOutcomes,
    f: FinishOutcomes,
)
    ensures
        preparing_refusal(space, o) is None <==> !space.busy && o.reserved is Ok && o.parts_room
            && forall|i: int|
            0 <= i < o.preflights@.len() ==> (#[trigger] o.preflights@[i]) is Ok,
        ({
            let refusal = existing_refusal(
                cores,
                requirements,
                space,
                epochs,
                before,
                now,
                instruction,
                o,
                f,
            );
            let permits = permits_refusal(cores, requirements, o.permits_room);
            &&& refusal is None <==> permits is None && preparing_refusal(space, o) is None
                && finish_refusal(epochs, before, now, instruction, f) is None
            &&& permits is Some ==> refusal == permits
            &&& permits is None && preparing_refusal(space, o) is Some ==> refusal
                == preparing_refusal(space, o)
        }),
{
    address_space::first_refusal_counts(o.preflights@, 0);
}

/// The pages that a caller names are those from the address on, as many as the bytes fill; a request
/// that names none is refused before the address space is asked.
pub proof fn named_pages_are_the_callers(
    stood: SpaceStanding,
    address: u64,
    bytes: u64,
    validated: Result<Vec<PermitRequirement>, ChangeError>,
    room: bool,
)
    ensures
        region::names_pages(address, bytes) ==> named_pages(address, bytes).wf() && named_pages(
            address,
            bytes,
        ).start == address && named_pages(address, bytes).pages * 4096 == bytes,
        !region::names_pages(address, bytes) ==> named_refusal(
            stood,
            address,
            bytes,
            validated,
            room,
        ) == Some(SystemCallError::IllegalArgument),
        named_refusal(stood, address, bytes, validated, room) is None <==> address % 4096 == 0
            && bytes % 4096 == 0 && bytes > 0 && address + bytes <= usize::MAX && !stood.busy
            && validated is Ok && room,
{
}

/// The object behind a handle grants a view exactly if it is a memory object, admits the view, and,
/// for a view to write, is not sealed and has a permit left.
pub proof fn views_are_granted_by_the_object(
    core: CoreView,
    found: Result<ProcessHandleEntry, TableError>,
    protection: Protection,
    authorized: Result<(), ObjectError>,
)
    ensures
        grant_refusal(core, found, protection, authorized) is None <==> {
            &&& found matches Ok(entry) && entry.kind is MemoryObject && entry.role is MemoryObject
            &&& authorized is Ok
            &&& protection is ReadWrite ==> core.state is Mutable && core.permits
                < core.permit_limit
        },
        found matches Err(error) ==> grant_refusal(core, found, protection, authorized) == Some(
            handle::reported(error),
        ),
{
}

/// A view that was granted gets a lease exactly if the object reaches that far, in just as many pages
/// as are asked for and from the start of a page, the space may hold the object and is idle, and a
/// lease can be had.
pub proof fn leases_need_a_fitting_view(
    space: SpaceView,
    intent: MapIntent,
    offset: usize,
    o: ViewOutcomes,
)
    ensures
        shape_refusal(space, intent, offset, o) is None <==> {
            &&& o.spans matches Some(spans) && intent.bytes <= backing::total_pages(spans@) * 4096
                < intent.bytes + 4096 && backing::total_pages(spans@) != 0
            &&& o.runs_room && o.holding is Ok && !space.busy
            &&& offset % 4096 == 0 && 0 < space.next_lease < u64::MAX
        },
        o.spans is None ==> shape_refusal(space, intent, offset, o) == Some(
            SystemCallError::IllegalArgument,
        ),
{
    map_intent::pages_are_just_enough(intent);
}

/// A view with a lease is mapped exactly if ledger and page table take it, there is memory for its
/// parts, the place for the answer, if one is asked for, is pinned down, and the plan comes to its
/// commit.
pub proof fn leased_views_need_every_step(
    epochs: AddressSpaceEpochs,
    before: Lifecycle,
    now: LifecycleView,
    intent: MapIntent,
    o: ViewOutcomes,
    f: FinishOutcomes,
)
    ensures
        leased_refusal(epochs, before, now, intent, o, f) is None <==> o.placed is Ok
            && o.reserved is Ok && o.parts_room && (intent.result is None || o.pinned is Ok)
            && o.preflight is Ok && finish_refusal(epochs, before, now, false, f) is None,
        o.placed matches Err(error) ==> leased_refusal(epochs, before, now, intent, o, f) == Some(
            space::space_reported(space::change_refusal(error)),
        ),
{
}

/// What is told when a plan, or the permits for it, fail for want of something: each failure is told
/// as what it is, and only if everything before it succeeded.
pub proof fn failures_are_told_as_they_are(
    epochs: AddressSpaceEpochs,
    before: Lifecycle,
    now: LifecycleView,
    instruction: bool,
    cores: Seq<CoreView>,
    requirements: Seq<PermitRequirement>,
    space: SpaceView,
    o: ExistingOutcomes,
    f: FinishOutcomes,
)
    ensures
        f.funded is Err ==> finish_refusal(epochs, before, now, instruction, f) == Some(
            space::late_reported(f.funded->Err_0),
        ),
        requirements.len() > 0 && view_permits::total(requirements) <= usize::MAX
            && !o.permits_room ==> permits_refusal(cores, requirements, o.permits_room) == Some(
            SystemCallError::OutOfMemory,
        ),
        requirements.len() > 0 && view_permits::total(requirements) <= usize::MAX && o.permits_room
            && view_permits::outcome(cores, requirements, requirements.len() as int) is Err
            ==> permits_refusal(cores, requirements, o.permits_room) == Some(
            memory_object::object_reported(
                view_permits::outcome(cores, requirements, requirements.len() as int)->Err_0,
            ),
        ),
        space.busy ==> preparing_refusal(space, o) == Some(SystemCallError::ObjectBusy),
        !space.busy && o.reserved is Err ==> preparing_refusal(space, o) == Some(
            space::late_reported(space::change_refusal(o.reserved->Err_0)),
        ),
        !space.busy && o.reserved is Ok && !o.parts_room ==> preparing_refusal(space, o) == Some(
            SystemCallError::OutOfMemory,
        ),
{
}

/// The same for anonymous memory and for views.
pub proof fn mapping_failures_are_told_as_they_are(
    stood: SpaceStanding,
    space: SpaceView,
    epochs: AddressSpaceEpochs,
    before: Lifecycle,
    now: LifecycleView,
    intent: MapIntent,
    offset: usize,
    o: AnonymousOutcomes,
    v: ViewOutcomes,
    f: FinishOutcomes,
)
    ensures
        stood.map_result(o.validated) is Ok && backing::allocate_refusal(
            intent.spec_pages(),
            o.runs,
            o.slots,
            o.runs_room,
        ) is Some ==> pages_refusal(stood, intent, o) == Some(
            space::late_reported(
                backing::allocate_refusal(intent.spec_pages(), o.runs, o.slots, o.runs_room)->0,
            ),
        ),
        ({
            let ready = !space.busy && 0 < space.next_backing < u64::MAX;
            &&& ready && o.placed is Err ==> placing_refusal(space, intent, o) == Some(
                space::space_reported(space::change_refusal(o.placed->Err_0)),
            )
            &&& ready && (o.placed matches Ok(layout) && layout.usable.pages != intent.spec_pages())
                ==> placing_refusal(space, intent, o) == Some(SystemCallError::IllegalArgument)
            &&& ready && (o.placed matches Ok(layout) && layout.usable.pages == intent.spec_pages())
                && !o.backing_room ==> placing_refusal(space, intent, o) == Some(
                SystemCallError::OutOfMemory,
            )
            &&& ready && (o.placed matches Ok(layout) && layout.usable.pages == intent.spec_pages())
                && o.backing_room && o.reserved is Err ==> placing_refusal(space, intent, o) == Some(
                space::space_reported(space::change_refusal(o.reserved->Err_0)),
            )
        }),
        pages_refusal(stood, intent, o) is None && placing_refusal(space, intent, o) is None
            && o.pinned is Ok && o.preflight is Err ==> anonymous_refusal(
            stood,
            space,
            epochs,
            before,
            now,
            intent,
            o,
            f,
        ) == Some(space::late_reported(o.preflight->Err_0)),
        v.spans is Some && !v.runs_room ==> shape_refusal(space, intent, offset, v) == Some(
            SystemCallError::OutOfMemory,
        ),
        v.spans is Some && v.runs_room && v.holding is Err ==> shape_refusal(
            space,
            intent,
            offset,
            v,
        ) == Some(space::space_reported(v.holding->Err_0)),
        v.spans is Some && v.runs_room && v.holding is Ok && space.busy ==> shape_refusal(
            space,
            intent,
            offset,
            v,
        ) == Some(SystemCallError::ObjectBusy),
        v.spans is Some && v.runs_room && v.holding is Ok && !space.busy && offset % 4096 != 0
            ==> shape_refusal(space, intent, offset, v) == Some(SystemCallError::IllegalArgument),
        v.placed is Ok && v.reserved is Err ==> leased_refusal(epochs, before, now, intent, v, f)
            == Some(space::space_reported(space::change_refusal(v.reserved->Err_0))),
        v.placed is Ok && v.reserved is Ok && (!v.parts_room || (intent.result is Some
            && v.pinned is Err)) ==> leased_refusal(epochs, before, now, intent, v, f) == Some(
            SystemCallError::OutOfMemory,
        ),
        v.placed is Ok && v.reserved is Ok && v.parts_room && (intent.result is None
            || v.pinned is Ok) && v.preflight is Err ==> leased_refusal(
            epochs,
            before,
            now,
            intent,
            v,
            f,
        ) == Some(space::space_reported(address_space::table_refusal(v.preflight->Err_0))),
{
}

/// A view to write that the object does not grant is told so: sealed is busy, and no permit left is a
/// limit.
pub proof fn ungranted_views_are_told_why(
    core: CoreView,
    found: Result<ProcessHandleEntry, TableError>,
    protection: Protection,
    authorized: Result<(), ObjectError>,
)
    requires
        handle::resolve_result(
            found,
            ObjectKind::MemoryObject,
            HandleRole::MemoryObject,
        ) is Ok,
    ensures
        authorized is Err ==> grant_refusal(core, found, protection, authorized) == Some(
            memory_object::object_reported(authorized->Err_0),
        ),
        authorized is Ok && protection is ReadWrite && !(core.state is Mutable) ==> grant_refusal(
            core,
            found,
            protection,
            authorized,
        ) == Some(SystemCallError::ObjectBusy),
        authorized is Ok && protection is ReadWrite && core.state is Mutable && core.permits
            >= core.permit_limit ==> grant_refusal(core, found, protection, authorized) == Some(
            SystemCallError::ReachLimit,
        ),
{
}

} // verus!
