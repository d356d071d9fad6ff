//! Memory for an address space that nobody executes in yet: the runs of an image, the main
//! stack, and the block that a first thread is given. Nobody has to be told of such a change,
//! so it is committed as soon as it is complete.
use vstd::prelude::*;

use crate::address_space;
use crate::address_space::{BoundAddressSpace, MapLayout, SpaceView};
use crate::backing;
use crate::backing::{BackingExtent, BackingState, CopyChunk, Holding, OwnedBacking};
use crate::bootstrap;
use crate::bootstrap::BlockGeometry;
use crate::elf_layout;
use crate::elf_layout::{LoadSegment, PageRun, SegmentCopy};
use crate::map_intent;
use crate::map_intent::{AnonymousClass, LedgerRequest, UserSpace};
use crate::memory_object::Protection;
use crate::process::PAGE_SIZE;
use crate::region::{RegionOwner, RetiringFragment};
use crate::space;
use crate::space::{ChangeError, MapError, SpaceError};

verus! {

/// What mapping memory meets with. Only what is reached counts.
pub struct BuildingOutcomes {
    /// The runs of frames that were funded, by first frame and length.
    pub runs: Result<Vec<(usize, usize)>, SpaceError>,
    /// How many slots for runs could be had.
    pub slots: usize,
    pub runs_room: bool,
    /// Where the ledger puts it.
    pub placed: Result<MapLayout, ChangeError>,
    pub reserved: Result<(), ChangeError>,
    pub backing_room: bool,
    pub preflight: Result<(), SpaceError>,
    /// How many parts the change has, and for how many of them funding tables gave frames.
    pub parts: usize,
    pub funded: Result<usize, SpaceError>,
    pub change_room: bool,
    /// What the page table made of each part.
    pub prepared: Vec<Result<(), MapError>>,
}

/// Memory that was not mapped.
pub struct BuildingFailure {
    pub error: SpaceError,
    /// The pages that were had for it, to be given back.
    pub backing: Option<OwnedBacking>,
    /// The reservation in the ledger is to be rolled back.
    pub roll_back: bool,
}

/// Why a plan whose backing has its identity does not enter the ledger.
pub open spec fn entry_refusal(space: SpaceView, o: BuildingOutcomes) -> Option<SpaceError> {
    if space.busy {
        Some(SpaceError::Busy)
    } else if o.placed is Err {
        Some(space::change_refusal(o.placed->Err_0))
    } else if o.reserved is Err {
        Some(space::change_refusal(o.reserved->Err_0))
    } else {
        None
    }
}

/// Why a plan that is in the ledger is not completed.
pub open spec fn completion_refusal(o: BuildingOutcomes) -> Option<SpaceError> {
    if !o.backing_room {
        Some(SpaceError::NoFrame)
    } else if o.preflight is Err {
        Some(o.preflight->Err_0)
    } else if o.funded is Err {
        Some(o.funded->Err_0)
    } else if o.funded->Ok_0 != o.parts || !o.change_room {
        Some(SpaceError::NoFrame)
    } else {
        match address_space::first_refusal(o.prepared@, 0) {
            Some(error) => Some(address_space::table_refusal(error)),
            None => None,
        }
    }
}

/// The address space with a backing entered, whose image reaches as far as `image_end` says.
pub open spec fn entered(
    space: SpaceView,
    backing: BackingState,
    image_end: Option<usize>,
) -> SpaceView {
    SpaceView {
        busy: false,
        backings: space.backings.push(backing),
        image_end: match image_end {
            Some(end) => if space.image_end < end {
                end
            } else {
                space.image_end
            },
            None => space.image_end,
        },
        ..space
    }
}

/// Completes a plan with table frames and commits it. If that fails the plan is over and the
/// backing comes back.
pub fn complete_building_plan(
    space: &mut BoundAddressSpace,
    bound: OwnedBacking,
    image_end: Option<usize>,
    o: &BuildingOutcomes,
) -> (r: Result<(), (SpaceError, OwnedBacking)>)
    requires
        old(space).wf(),
        old(space)@.busy,
        o.backing_room,
        o.preflight is Ok,
        bound.wf(),
        bound@.extents.len() > 0,
        bound@.identity < old(space)@.next_backing,
        forall|i: int|
            0 <= i < old(space)@.backings.len() ==> (#[trigger] old(space)@.backings[i]).identity
                < bound@.identity,
    ensures
        final(space).wf(),
        match r {
            Err((error, back)) => {
                &&& completion_refusal(*o) == Some(error)
                &&& back == bound
                &&& final(space)@ == (SpaceView { busy: false, ..old(space)@ })
            },
            Ok(_) => {
                &&& completion_refusal(*o) is None
                &&& final(space)@ == entered(old(space)@, bound@, image_end)
            },
        },
{
    let funded: usize = match o.funded {
        Err(error) => {
            space.clear_table_transaction();
            return Err((error, bound));
        },
        Ok(funded) => funded,
    };
    match space.complete_memory_change(o.parts, funded, o.change_room, &o.prepared) {
        Err(error) => {
            return Err((error, bound));
        },
        Ok(_) => {},
    }
    let ghost state = bound@;
    let nothing: Vec<RetiringFragment> = Vec::new();
    space.commit_change(Some(bound), None, image_end, &nothing);
    assert(space@ =~= entered(old(space)@, state, image_end));
    Ok(())
}

/// `len` bytes at `vaddr` are whole pages.
pub open spec fn whole_pages(vaddr: usize, len: usize) -> bool {
    len != 0 && vaddr % PAGE_SIZE == 0 && len % PAGE_SIZE == 0
}

/// What becomes of the address space when `len` bytes are mapped at `vaddr`, and why they are
/// not, if so. An identity that was handed out is used up.
pub open spec fn mapping_outcome(
    space: SpaceView,
    vaddr: usize,
    len: usize,
    image_end: Option<usize>,
    o: BuildingOutcomes,
) -> (SpaceView, Option<SpaceError>) {
    let pages = len as int / PAGE_SIZE as int;
    let refusal = backing::allocate_refusal(pages, o.runs, o.slots, o.runs_room);
    if refusal is Some {
        (space, refusal)
    } else if !whole_pages(vaddr, len) {
        (space, Some(SpaceError::BadSegment))
    } else if !SpaceView::mintable(space.next_backing) {
        (space, Some(SpaceError::NoFrame))
    } else if entry_refusal(space, o) is Some {
        (space.backing_minted(), entry_refusal(space, o))
    } else if completion_refusal(o) is Some {
        (space.backing_minted(), completion_refusal(o))
    } else {
        (
            entered(
                space.backing_minted(),
                BackingState {
                    identity: space.next_backing,
                    pages: pages as usize,
                    extents: backing::laid_out(o.runs->Ok_0@),
                },
                image_end,
            ),
            None,
        )
    }
}

/// The pages that were had come back, and the ledger is rolled back if it took the mapping.
pub open spec fn gives_up(
    space: SpaceView,
    vaddr: usize,
    len: usize,
    o: BuildingOutcomes,
    failure: BuildingFailure,
) -> bool {
    &&& failure.backing is Some <==> backing::allocate_refusal(
        len as int / PAGE_SIZE as int,
        o.runs,
        o.slots,
        o.runs_room,
    ) is None
    &&& failure.backing matches Some(back) ==> back@.extents == backing::laid_out(o.runs->Ok_0@)
    &&& failure.roll_back <==> failure.backing is Some && whole_pages(vaddr, len)
        && SpaceView::mintable(space.next_backing) && entry_refusal(space, o) is None
}

/// What the ledger is asked for when `len` bytes are mapped at `vaddr`.
pub open spec fn image_request(
    space: SpaceView,
    vaddr: usize,
    len: usize,
    protection: Protection,
) -> LedgerRequest {
    map_intent::building_request(
        vaddr,
        len,
        protection,
        RegionOwner::AddressSpace,
        space.next_backing,
        map_intent::image_class(protection),
    )
}

/// Maps `len` bytes at `vaddr` with this protection, and says what the ledger was asked for;
/// the image reaches `image_end` then, if that is given.
pub fn map_building_protection(
    space: &mut BoundAddressSpace,
    vaddr: usize,
    len: usize,
    protection: Protection,
    image_end: Option<usize>,
    o: &BuildingOutcomes,
) -> (r: Result<LedgerRequest, BuildingFailure>)
    requires
        old(space).wf(),
        o.runs matches Ok(runs) ==> backing::runs_fit(runs@, len as int / PAGE_SIZE as int),
    ensures
        final(space).wf(),
        ({
            let outcome = mapping_outcome(old(space)@, vaddr, len, image_end, *o);
            &&& final(space)@ == outcome.0
            &&& match r {
                Ok(request) => outcome.1 is None && request == image_request(
                    old(space)@,
                    vaddr,
                    len,
                    protection,
                ),
                Err(failure) => outcome.1 == Some(failure.error) && gives_up(
                    old(space)@,
                    vaddr,
                    len,
                    *o,
                    failure,
                ),
            }
        }),
{
    proof {
        space.wf_view();
    }
    let pages: usize = len / PAGE_SIZE;
    let unbound = match backing::allocate(pages, &o.runs, o.slots, o.runs_room) {
        Err(error) => {
            return Err(BuildingFailure { error, backing: None, roll_back: false });
        },
        Ok(unbound) => unbound,
    };
    let plan = match space.plan_bound_anonymous_mapping(
        vaddr,
        len,
        protection,
        pages,
        o.placed,
        o.reserved,
        o.backing_room,
        o.preflight,
    ) {
        Err(failure) => {
            return Err(
                BuildingFailure {
                    error: failure.error,
                    backing: Some(unbound),
                    roll_back: failure.roll_back,
                },
            );
        },
        Ok(plan) => plan,
    };
    let bound = unbound.bind(plan.identity);
    match complete_building_plan(space, bound, image_end, o) {
        Err((error, back)) => {
            assert(space@ =~= old(space)@.backing_minted());
            Err(BuildingFailure { error, backing: Some(back), roll_back: true })
        },
        Ok(_) => Ok(plan.request),
    }
}

/// Maps the main stack, at the top of user memory, to read and to write.
pub fn map_stack(space: &mut BoundAddressSpace, user: UserSpace, o: &BuildingOutcomes) -> (r:
    Result<LedgerRequest, BuildingFailure>)
    requires
        old(space).wf(),
        user.wf(),
        o.runs matches Ok(runs) ==> backing::runs_fit(
            runs@,
            user.stack_bytes as int / PAGE_SIZE as int,
        ),
    ensures
        final(space).wf(),
        ({
            let outcome = mapping_outcome(
                old(space)@,
                user.spec_stack_base() as usize,
                user.stack_bytes,
                None,
                *o,
            );
            &&& final(space)@ == outcome.0
            &&& match r {
                Ok(request) => outcome.1 is None && request == image_request(
                    old(space)@,
                    user.spec_stack_base() as usize,
                    user.stack_bytes,
                    Protection::ReadWrite,
                ),
                Err(failure) => outcome.1 == Some(failure.error) && gives_up(
                    old(space)@,
                    user.spec_stack_base() as usize,
                    user.stack_bytes,
                    *o,
                    failure,
                ),
            }
        }),
{
    map_building_protection(
        space,
        user.stack_base(),
        user.stack_bytes,
        Protection::ReadWrite,
        None,
        o,
    )
}

/// What becomes of the address space when the first `n` runs of an image are mapped one after
/// the other; the first that is not mapped ends it.
pub open spec fn image_outcome(
    space: SpaceView,
    runs: Seq<PageRun>,
    outcomes: Seq<BuildingOutcomes>,
    n: int,
) -> (SpaceView, Option<SpaceError>)
    decreases n,
{
    if n <= 0 {
        (space, None)
    } else {
        let sofar = image_outcome(space, runs, outcomes, n - 1);
        let run = runs[n - 1];
        if sofar.1 is Some {
            sofar
        } else {
            mapping_outcome(
                sofar.0,
                (run.start * PAGE_SIZE) as usize,
                ((run.end - run.start) * PAGE_SIZE) as usize,
                Some((run.end * PAGE_SIZE) as usize),
                outcomes[n - 1],
            )
        }
    }
}

/// What the ledger is asked for when the first `n` runs of an image are mapped.
pub open spec fn run_requests(
    space: SpaceView,
    runs: Seq<PageRun>,
    outcomes: Seq<BuildingOutcomes>,
    n: int,
) -> Seq<LedgerRequest> {
    Seq::new(
        n as nat,
        |i: int|
            image_request(
                image_outcome(space, runs, outcomes, i).0,
                (runs[i].start * PAGE_SIZE) as usize,
                ((runs[i].end - runs[i].start) * PAGE_SIZE) as usize,
                runs[i].protection,
            ),
    )
}

/// A run that is not mapped ends it.
proof fn image_stops(
    space: SpaceView,
    runs: Seq<PageRun>,
    outcomes: Seq<BuildingOutcomes>,
    n: int,
    m: int,
)
    requires
        0 <= n <= m,
        image_outcome(space, runs, outcomes, n).1 is Some,
    ensures
        image_outcome(space, runs, outcomes, m) == image_outcome(space, runs, outcomes, n),
    decreases m - n,
{
    if n < m {
        image_stops(space, runs, outcomes, n, m - 1);
    }
}

/// There is an outcome for each run, and what was funded for it fits.
pub open spec fn outcomes_fit(runs: Seq<PageRun>, outcomes: Seq<BuildingOutcomes>) -> bool {
    &&& outcomes.len() == runs.len()
    &&& forall|i: int|
        0 <= i < runs.len() ==> ((#[trigger] outcomes[i]).runs matches Ok(list)
            ==> backing::runs_fit(list@, runs[i].end - runs[i].start))
}

/// What loading an image comes to, if its pages are laid out as `runs`.
pub open spec fn load_outcome(
    space: SpaceView,
    segments: Seq<LoadSegment>,
    runs: Seq<PageRun>,
    outcomes: Seq<BuildingOutcomes>,
    file_len: usize,
    written: Seq<Result<(), SpaceError>>,
) -> (SpaceView, Option<SpaceError>) {
    let mapped = image_outcome(space, runs, outcomes, runs.len() as int);
    let fault = elf_layout::first_fault(segments, file_len as int, written, 0);
    let end = elf_layout::page_up(elf_layout::reach(segments));
    if mapped.1 is Some {
        mapped
    } else if fault is Some {
        (mapped.0, fault)
    } else {
        (
            SpaceView {
                image_end: if mapped.0.image_end < end {
                    end as usize
                } else {
                    mapped.0.image_end
                },
                ..mapped.0
            },
            None,
        )
    }
}

/// An image that is loaded.
pub struct LoadedImage {
    /// What the ledger was asked for, run by run.
    pub requests: Vec<LedgerRequest>,
    /// What was written.
    pub copies: Vec<SegmentCopy>,
}

/// Run `k` is the first that is not mapped, and what was had for it comes back.
pub open spec fn run_gives_up(
    space: SpaceView,
    runs: Seq<PageRun>,
    outcomes: Seq<BuildingOutcomes>,
    k: int,
    failure: BuildingFailure,
) -> bool {
    let sofar = image_outcome(space, runs, outcomes, k);
    &&& 0 <= k < runs.len()
    &&& sofar.1 is None
    &&& image_outcome(space, runs, outcomes, k + 1).1 is Some
    &&& gives_up(
        sofar.0,
        (runs[k].start * PAGE_SIZE) as usize,
        ((runs[k].end - runs[k].start) * PAGE_SIZE) as usize,
        outcomes[k],
        failure,
    )
}

/// Loads an image: its pages are laid out and mapped run by run, then its bytes are
/// written; what the ledger was asked for, and what was written. `room` says whether the layout can be listed, `outcomes` what mapping each run
/// meets with, `written` what writing each segment gave. What was mapped before a failure
/// stays; the address space is given up as a whole then.
pub fn load_elf(
    space: &mut BoundAddressSpace,
    user: UserSpace,
    segments: &Vec<LoadSegment>,
    room: bool,
    outcomes: &Vec<BuildingOutcomes>,
    file_len: usize,
    written: &Vec<Result<(), SpaceError>>,
) -> (r: Result<LoadedImage, BuildingFailure>)
    requires
        old(space).wf(),
        user.wf(),
        written@.len() == segments@.len(),
        elf_layout::loadable(segments@, user.top as int) && room ==> forall|runs: Seq<PageRun>|
            #[trigger]
            elf_layout::runs_of(segments@, runs) ==> outcomes_fit(runs, outcomes@),
    ensures
        final(space).wf(),
        !elf_layout::loadable(segments@, user.top as int) ==> final(space)@ == old(space)@ && (
        r matches Err(failure) && failure.error == SpaceError::BadSegment && failure.backing is None
            && !failure.roll_back),
        elf_layout::loadable(segments@, user.top as int) && !room ==> final(space)@ == old(
            space,
        )@ && (r matches Err(failure) && failure.error == SpaceError::NoFrame && failure.backing is None
            && !failure.roll_back),
        elf_layout::loadable(segments@, user.top as int) && room ==> exists|runs: Seq<PageRun>|
            #[trigger]
            elf_layout::runs_of(segments@, runs) && ({
                let outcome = load_outcome(
                    old(space)@,
                    segments@,
                    runs,
                    outcomes@,
                    file_len,
                    written@,
                );
                &&& final(space)@ == outcome.0
                &&& match r {
                    Ok(image) => {
                        &&& outcome.1 is None
                        &&& image.requests@ == run_requests(
                            old(space)@,
                            runs,
                            outcomes@,
                            runs.len() as int,
                        )
                        &&& image.copies@ == elf_layout::copies(
                            segments@,
                            segments@.len() as int,
                        )
                    },
                    Err(failure) => {
                        &&& outcome.1 == Some(failure.error)
                        &&& if image_outcome(
                            old(space)@,
                            runs,
                            outcomes@,
                            runs.len() as int,
                        ).1 is Some {
                            exists|k: int| #[trigger]
                                run_gives_up(old(space)@, runs, outcomes@, k, failure)
                        } else {
                            failure.backing is None && !failure.roll_back
                        }
                    },
                }
            }),
{
    let (runs, image_end) = match elf_layout::plan_elf_layout(user, segments, room) {
        Err(error) => {
            return Err(BuildingFailure { error, backing: None, roll_back: false });
        },
        Ok(planned) => planned,
    };
    assert(elf_layout::runs_of(segments@, runs@));
    let ghost start = space@;
    let mut requests: Vec<LedgerRequest> = Vec::new();
    let mut index: usize = 0;
    assert(requests@ =~= run_requests(start, runs@, outcomes@, 0));
    while index < runs.len()
        invariant
            space.wf(),
            start == old(space)@,
            index <= runs@.len(),
            elf_layout::loadable(segments@, user.top as int),
            room,
            elf_layout::runs_of(segments@, runs@),
            outcomes_fit(runs@, outcomes@),
            forall|i: int|
                0 <= i < runs@.len() ==> (#[trigger] runs@[i]).end * PAGE_SIZE <= user.top,
            image_outcome(start, runs@, outcomes@, index as int) == (space@, None::<SpaceError>),
            requests@ == run_requests(start, runs@, outcomes@, index as int),
        decreases runs@.len() - index,
    {
        let run = runs[index];
        assert(runs@[index as int].end * PAGE_SIZE <= user.top);
        assert(run.start < run.end);
        assert(run.start * PAGE_SIZE <= run.end * PAGE_SIZE && (run.end - run.start) * PAGE_SIZE
            <= run.end * PAGE_SIZE && ((run.end - run.start) * PAGE_SIZE) / PAGE_SIZE as int
            == run.end - run.start) by (nonlinear_arith)
            requires
                0 <= run.start <= run.end,
                PAGE_SIZE == 4096,
        ;
        let vaddr: usize = run.vaddr();
        let len: usize = run.bytes();
        assert(outcomes@[index as int].runs matches Ok(list) ==> backing::runs_fit(
            list@,
            runs@[index as int].end - runs@[index as int].start,
        ));
        match map_building_protection(
            space,
            vaddr,
            len,
            run.protection,
            Some(run.end * PAGE_SIZE),
            &outcomes[index],
        ) {
            Err(failure) => {
                proof {
                    image_stops(start, runs@, outcomes@, index + 1, runs@.len() as int);
                    assert(run_gives_up(start, runs@, outcomes@, index as int, failure));
                }
                return Err(failure);
            },
            Ok(request) => {
                requests.push(request);
                assert(requests@ =~= run_requests(start, runs@, outcomes@, index + 1));
            },
        }
        index = index + 1;
    }
    match elf_layout::write_elf_segments(segments, file_len, written, space.image_end(), image_end) {
        Err(error) => Err(BuildingFailure { error, backing: None, roll_back: false }),
        Ok((end, copies)) => {
            space.extend_image(end);
            Ok(LoadedImage { requests, copies })
        },
    }
}

/// The runs of the block's backing: those of the prefix, and the payload's behind them.
pub open spec fn block_extents(
    runs: Seq<(usize, usize)>,
    prefix_pages: usize,
    payload: Option<(usize, usize)>,
) -> Seq<BackingExtent> {
    match payload {
        None => backing::laid_out(runs),
        Some((base, pages)) => backing::laid_out(runs).push(
            BackingExtent {
                offset_pages: prefix_pages,
                base,
                pages,
                holding: Holding::BootBorrowed,
            },
        ),
    }
}

/// How many pages the payload has.
pub open spec fn payload_pages(payload: Option<(usize, usize)>) -> usize {
    match payload {
        None => 0,
        Some((_, pages)) => pages,
    }
}

/// What becomes of the address space when the block of a first thread is mapped, and why it is
/// not, if so. What was handed out by then, an identity and a lease, is used up.
pub open spec fn block_outcome(
    space: SpaceView,
    geometry: Result<BlockGeometry, SpaceError>,
    payload: Option<(usize, usize)>,
    payload_room: bool,
    o: BuildingOutcomes,
) -> (SpaceView, Option<SpaceError>) {
    let block = geometry->Ok_0;
    let refusal = backing::allocate_refusal(
        block.prefix_pages as int,
        o.runs,
        o.slots,
        o.runs_room,
    );
    let minted = space.backing_minted().lease_minted();
    if geometry is Err {
        (space, Some(geometry->Err_0))
    } else if !SpaceView::mintable(space.next_backing) {
        (space, Some(SpaceError::NoFrame))
    } else if !SpaceView::mintable(space.next_lease) {
        (space.backing_minted(), Some(SpaceError::NoFrame))
    } else if refusal is Some {
        (minted, refusal)
    } else if payload is Some && !payload_room {
        (minted, Some(SpaceError::NoFrame))
    } else if entry_refusal(space, o) is Some {
        (minted, entry_refusal(space, o))
    } else if completion_refusal(o) is Some {
        (minted, completion_refusal(o))
    } else {
        (
            entered(
                minted,
                BackingState {
                    identity: space.next_backing,
                    pages: block.pages,
                    extents: block_extents(o.runs->Ok_0@, block.prefix_pages, payload),
                },
                Some(block.end),
            ),
            None,
        )
    }
}

/// The pages that were had for the block come back, and the ledger is rolled back if it took
/// the block.
pub open spec fn block_gives_up(
    space: SpaceView,
    geometry: Result<BlockGeometry, SpaceError>,
    payload: Option<(usize, usize)>,
    payload_room: bool,
    o: BuildingOutcomes,
    failure: BuildingFailure,
) -> bool {
    let prefix_pages = geometry->Ok_0.prefix_pages;
    let had = geometry is Ok && SpaceView::mintable(space.next_backing) && SpaceView::mintable(
        space.next_lease,
    ) && backing::allocate_refusal(prefix_pages as int, o.runs, o.slots, o.runs_room) is None;
    let listed = payload is None || payload_room;
    &&& failure.backing is Some <==> had
    &&& failure.backing matches Some(back) ==> back@.extents == if listed {
        block_extents(o.runs->Ok_0@, prefix_pages, payload)
    } else {
        backing::laid_out(o.runs->Ok_0@)
    }
    &&& failure.roll_back <==> had && listed && entry_refusal(space, o) is None
}

/// A block that is mapped.
pub struct MappedBlock {
    /// Where it starts.
    pub base: usize,
    /// Where the bytes of its prefix go.
    pub chunks: Vec<CopyChunk>,
    /// What the ledger was asked for.
    pub request: LedgerRequest,
}

/// The block starts where the image ends, its prefix goes to the first pages of its backing,
/// and the ledger was asked for memory to read that only the holder of the lease can take
/// away again.
pub open spec fn block_mapped(
    space: SpaceView,
    block: BlockGeometry,
    prefix_len: usize,
    payload: Option<(usize, usize)>,
    o: BuildingOutcomes,
    mapped: MappedBlock,
) -> bool {
    &&& mapped.base == space.image_end
    &&& mapped.request == map_intent::building_request(
        space.image_end,
        (block.pages * PAGE_SIZE) as usize,
        Protection::ReadOnly,
        RegionOwner::Lease(space.next_lease),
        space.next_backing,
        AnonymousClass::Data,
    )
    &&& backing::fills(
        block_extents(o.runs->Ok_0@, block.prefix_pages, payload),
        prefix_len as int,
        mapped.chunks@,
    )
}

/// Maps the block that a first thread is given, behind the image: a prefix of `prefix_len`
/// bytes in pages of its own, and a payload of `payload_len` bytes in frames that are lent for
/// now, given by first frame and length. Only the kernel can take it away again.
/// `payload_room` says whether the payload's run can be listed.
pub fn map_bootstrap_block(
    space: &mut BoundAddressSpace,
    user: UserSpace,
    prefix_len: usize,
    payload: Option<(usize, usize)>,
    payload_len: usize,
    payload_room: bool,
    o: &BuildingOutcomes,
) -> (r: Result<MappedBlock, BuildingFailure>)
    requires
        old(space).wf(),
        user.wf(),
        o.runs matches Ok(runs) ==> backing::runs_fit(
            runs@,
            prefix_len as int / PAGE_SIZE as int,
        ),
        payload matches Some((base, pages)) ==> pages > 0 && (base + pages) * PAGE_SIZE
            <= usize::MAX,
    ensures
        final(space).wf(),
        ({
            let geometry = bootstrap::block_geometry(
                user,
                old(space)@.image_end,
                prefix_len,
                payload_pages(payload),
                payload_len,
            );
            let outcome = block_outcome(old(space)@, geometry, payload, payload_room, *o);
            &&& final(space)@ == outcome.0
            &&& match r {
                Err(failure) => outcome.1 == Some(failure.error) && block_gives_up(
                    old(space)@,
                    geometry,
                    payload,
                    payload_room,
                    *o,
                    failure,
                ),
                Ok(mapped) => outcome.1 is None && block_mapped(
                    old(space)@,
                    geometry->Ok_0,
                    prefix_len,
                    payload,
                    *o,
                    mapped,
                ),
            }
        }),
{
    proof {
        space.wf_view();
    }
    let lent: usize = match payload {
        None => 0,
        Some((_, pages)) => pages,
    };
    let block = match bootstrap::bootstrap_block(
        user,
        space.image_end(),
        prefix_len,
        lent,
        payload_len,
    ) {
        Err(error) => {
            return Err(BuildingFailure { error, backing: None, roll_back: false });
        },
        Ok(block) => block,
    };
    let identity: u64 = match space.mint_backing() {
        Err(error) => {
            return Err(BuildingFailure { error, backing: None, roll_back: false });
        },
        Ok(identity) => identity,
    };
    let lease: u64 = match space.mint_lease() {
        Err(error) => {
            return Err(BuildingFailure { error, backing: None, roll_back: false });
        },
        Ok(lease) => lease,
    };
    assert(block.pages == block.prefix_pages + lent);
    assert(block.pages * PAGE_SIZE <= usize::MAX && block.prefix_pages * PAGE_SIZE <= usize::MAX
        && prefix_len == block.prefix_pages * PAGE_SIZE) by (nonlinear_arith)
        requires
            0 <= block.prefix_pages <= block.pages,
            PAGE_SIZE == 4096,
            prefix_len % PAGE_SIZE == 0,
            block.prefix_pages == prefix_len as int / PAGE_SIZE as int,
            0 <= space@.image_end,
            space@.image_end + block.pages * PAGE_SIZE <= user.spec_stack_base(),
            user.spec_stack_base() <= usize::MAX,
    ;
    let unbound = match backing::allocate(block.prefix_pages, &o.runs, o.slots, o.runs_room) {
        Err(error) => {
            return Err(BuildingFailure { error, backing: None, roll_back: false });
        },
        Ok(unbound) => unbound,
    };
    let mut bound = unbound.bind(identity);
    match payload {
        None => {},
        Some((base, pages)) => {
            if !payload_room {
                return Err(
                    BuildingFailure {
                        error: SpaceError::NoFrame,
                        backing: Some(bound),
                        roll_back: false,
                    },
                );
            }
            bound.append_borrowed(base, pages);
        },
    }
    assert(bound@.extents =~= block_extents(o.runs->Ok_0@, block.prefix_pages, payload));
    assert(prefix_len <= bound@.pages * PAGE_SIZE) by (nonlinear_arith)
        requires
            prefix_len == block.prefix_pages * PAGE_SIZE,
            block.prefix_pages <= bound@.pages,
            PAGE_SIZE == 4096,
    ;
    let chunks = bound.write_from_start(prefix_len);
    let plan = match space.plan_bound_anonymous(
        block.base,
        Protection::ReadOnly,
        AnonymousClass::Data,
        RegionOwner::Lease(lease),
        identity,
        block.pages,
        o.placed,
        o.reserved,
        o.backing_room,
        o.preflight,
    ) {
        Err(failure) => {
            return Err(
                BuildingFailure {
                    error: failure.error,
                    backing: Some(bound),
                    roll_back: failure.roll_back,
                },
            );
        },
        Ok(plan) => plan,
    };
    match complete_building_plan(space, bound, Some(block.end), o) {
        Err((error, back)) => {
            assert(space@ =~= old(space)@.backing_minted().lease_minted());
            Err(BuildingFailure { error, backing: Some(back), roll_back: true })
        },
        Ok(_) => Ok(MappedBlock { base: block.base, chunks, request: plan.request }),
    }
}

/// Memory enters an address space exactly if its frames were had, in runs that there are places
/// for, it is whole pages, an identity can be had, the space is idle, ledger and page table take
/// it, and nothing is short.
pub proof fn mapping_needs_every_step(
    space: SpaceView,
    vaddr: usize,
    len: usize,
    image_end: Option<usize>,
    o: BuildingOutcomes,
)
    ensures
        mapping_outcome(space, vaddr, len, image_end, o).1 is None <==> {
            &&& len >= 4096 && vaddr % 4096 == 0 && len % 4096 == 0
            &&& o.runs matches Ok(runs) && runs@.len() <= o.slots
            &&& o.runs_room && o.backing_room && o.change_room
            &&& 0 < space.next_backing < u64::MAX && !space.busy
            &&& o.placed is Ok && o.reserved is Ok && o.preflight is Ok
            &&& o.funded matches Ok(parts) && parts == o.parts
            &&& forall|i: int| 0 <= i < o.prepared@.len() ==> (#[trigger] o.prepared@[i]) is Ok
        },
        entry_refusal(space, o) is None <==> !space.busy && o.placed is Ok && o.reserved is Ok,
        space.busy ==> entry_refusal(space, o) == Some(SpaceError::Busy),
{
    address_space::first_refusal_counts(o.prepared@, 0);
}

/// Memory that enters is one backing more, behind all others, under the next identity: it has the
/// pages asked for, from the frames that were had, in their order. The image reaches no less far,
/// and the space is idle. Memory that does not enter leaves the space alone, but for an identity
/// that was handed out.
pub proof fn mapping_adds_one_backing(
    space: SpaceView,
    vaddr: usize,
    len: usize,
    image_end: Option<usize>,
    o: BuildingOutcomes,
)
    ensures
        ({
            let (after, refusal) = mapping_outcome(space, vaddr, len, image_end, o);
            &&& refusal is None ==> {
                let new = after.backings.last();
                &&& after.backings.len() == space.backings.len() + 1
                &&& after.backings.drop_last() == space.backings
                &&& new.identity == space.next_backing && new.pages * 4096 == len
                &&& new.extents == backing::laid_out(o.runs->Ok_0@)
                &&& after.next_backing == space.next_backing + 1 && !after.busy
                &&& image_end is None ==> after.image_end == space.image_end
                &&& image_end matches Some(end) ==> after.image_end >= end && after.image_end
                    >= space.image_end && (after.image_end == end || after.image_end
                    == space.image_end)
            }
            &&& refusal is Some ==> after.backings == space.backings && after.image_end
                == space.image_end && after.busy == space.busy && space.next_backing
                <= after.next_backing <= space.next_backing + 1
            &&& after.views == space.views && after.next_lease == space.next_lease
        }),
{
    let added = mapping_outcome(space, vaddr, len, image_end, o);
    if added.1 is None {
        assert(added.0.backings.drop_last() =~= space.backings);
    }
}

/// What was had for memory that does not enter comes back: the frames exactly if they were had, the
/// ledger's reservation exactly if it was made.
pub proof fn failures_give_back_what_was_had(
    space: SpaceView,
    vaddr: usize,
    len: usize,
    o: BuildingOutcomes,
    failure: BuildingFailure,
)
    requires
        gives_up(space, vaddr, len, o, failure),
    ensures
        failure.backing is Some <==> len >= 4096 && o.runs_room && (o.runs matches Ok(runs)
            && runs@.len() <= o.slots),
        failure.backing matches Some(back) ==> (o.runs matches Ok(runs) && back@.extents
            == backing::laid_out(runs@)),
        failure.roll_back ==> failure.backing is Some && !space.busy && o.placed is Ok
            && o.reserved is Ok,
        failure.backing is Some && vaddr % 4096 == 0 && len % 4096 == 0 && 0 < space.next_backing
            < u64::MAX && !space.busy && o.placed is Ok && o.reserved is Ok ==> failure.roll_back,
{
}

/// The ledger is asked for the bytes at the address, with the protection, for the address space
/// itself, under the next identity.
pub proof fn images_are_asked_for_as_they_are(
    space: SpaceView,
    vaddr: usize,
    len: usize,
    protection: Protection,
)
    ensures
        ({
            let asked = image_request(space, vaddr, len, protection);
            &&& asked.placement == (map_intent::MapPlacement::FixedEmpty { usable_start: vaddr })
            &&& asked.bytes == len && asked.current == protection && asked.maximum == protection
            &&& asked.owner is AddressSpace && asked.result is None
            &&& asked.guard_before == 0 && asked.guard_after == 0
            &&& asked.backing matches map_intent::MapBacking::Anonymous { identity, class }
                && identity == space.next_backing && (class is InitialExecutable
                <==> protection is ReadExecute)
        }),
{
}

/// An image is mapped run by run and stops at the first that is not: as long as none fails, each
/// run is one backing more under the next identity, and the image reaches at least to its end.
pub proof fn images_are_mapped_run_by_run(
    space: SpaceView,
    runs: Seq<PageRun>,
    outcomes: Seq<BuildingOutcomes>,
    n: int,
)
    requires
        0 <= n <= runs.len(),
        outcomes.len() == runs.len(),
        forall|i: int|
            0 <= i < runs.len() ==> (#[trigger] runs[i]).start < runs[i].end && runs[i].end * 4096
                <= usize::MAX,
    ensures
        ({
            let (after, refusal) = image_outcome(space, runs, outcomes, n);
            &&& refusal is None ==> after.backings.len() == space.backings.len() + n
                && after.next_backing == space.next_backing + n
            &&& refusal is None && n > 0 ==> after.image_end >= runs[n - 1].end * 4096
                && after.backings.last().pages == runs[n - 1].end - runs[n - 1].start
            &&& refusal is Some ==> after.backings.len() < space.backings.len() + n
            &&& n > 0 && image_outcome(space, runs, outcomes, n - 1).1 is Some ==> refusal
                == image_outcome(space, runs, outcomes, n - 1).1
            &&& after.image_end >= space.image_end && after.views == space.views
                && after.next_lease == space.next_lease
            &&& space.backings.is_prefix_of(after.backings)
        }),
    decreases n,
{
    if n > 0 {
        images_are_mapped_run_by_run(space, runs, outcomes, n - 1);
        let sofar = image_outcome(space, runs, outcomes, n - 1);
        let run = runs[n - 1];
        if sofar.1 is None {
            let vaddr = (run.start * PAGE_SIZE) as usize;
            let len = ((run.end - run.start) * PAGE_SIZE) as usize;
            let end = Some((run.end * PAGE_SIZE) as usize);
            mapping_adds_one_backing(sofar.0, vaddr, len, end, outcomes[n - 1]);
            let after = mapping_outcome(sofar.0, vaddr, len, end, outcomes[n - 1]).0;
            if image_outcome(space, runs, outcomes, n).1 is None {
                assert(after.backings.drop_last() == sofar.0.backings);
                assert forall|i: int| 0 <= i < space.backings.len() implies after.backings[i]
                    == space.backings[i] by {
                    assert(after.backings[i] == after.backings.drop_last()[i]);
                }
            }
        }
    }
}

/// A loaded image reaches at least to the page behind its furthest segment. A fault while it is
/// filled leaves what was mapped; loading succeeds exactly if every run is mapped and every segment
/// is filled.
pub proof fn loaded_images_reach_their_end(
    space: SpaceView,
    segments: Seq<LoadSegment>,
    runs: Seq<PageRun>,
    outcomes: Seq<BuildingOutcomes>,
    file_len: usize,
    written: Seq<Result<(), SpaceError>>,
)
    requires
        elf_layout::page_up(elf_layout::reach(segments)) <= usize::MAX,
    ensures
        ({
            let (after, refusal) = load_outcome(
                space,
                segments,
                runs,
                outcomes,
                file_len,
                written,
            );
            let (mapped, unmapped) = image_outcome(space, runs, outcomes, runs.len() as int);
            let fault = elf_layout::first_fault(segments, file_len as int, written, 0);
            &&& refusal is None <==> unmapped is None && fault is None
            &&& unmapped is Some ==> refusal == unmapped
            &&& unmapped is None && fault is Some ==> refusal == fault
            &&& refusal is Some ==> after == mapped
            &&& refusal is None ==> after.image_end >= elf_layout::page_up(
                elf_layout::reach(segments),
            ) && after.image_end >= mapped.image_end && (SpaceView {
                image_end: mapped.image_end,
                ..after
            }) == mapped
        }),
{
}

/// The block's backing has the prefix first, from the frames that were had for it, and the payload
/// behind it, where it has lain since boot.
pub proof fn blocks_have_the_prefix_first(
    runs: Seq<(usize, usize)>,
    prefix_pages: usize,
    payload: Option<(usize, usize)>,
)
    ensures
        ({
            let extents = block_extents(runs, prefix_pages, payload);
            &&& forall|i: int|
                0 <= i < runs.len() ==> (#[trigger] extents[i]) == backing::laid_out(runs)[i]
            &&& payload is None ==> extents.len() == runs.len() && payload_pages(payload) == 0
            &&& payload matches Some((base, pages)) ==> {
                let last = extents.last();
                &&& extents.len() == runs.len() + 1 && payload_pages(payload) == pages
                &&& last.offset_pages == prefix_pages && last.base == base && last.pages == pages
                &&& last.holding is BootBorrowed
            }
        }),
{
}

/// A block is mapped exactly if there is a place for it, an identity and a lease can be had, and the
/// memory for it enters; it is one backing more then, of the block's pages, and identity and lease
/// are used up. A block that is not mapped leaves backings and image as they were.
pub proof fn mapping_a_block_adds_one_backing(
    space: SpaceView,
    geometry: Result<BlockGeometry, SpaceError>,
    payload: Option<(usize, usize)>,
    payload_room: bool,
    o: BuildingOutcomes,
)
    ensures
        ({
            let (after, refusal) = block_outcome(space, geometry, payload, payload_room, o);
            &&& refusal is None <==> {
                &&& geometry matches Ok(block) && block.prefix_pages > 0
                &&& 0 < space.next_backing < u64::MAX && 0 < space.next_lease < u64::MAX
                &&& o.runs matches Ok(runs) && runs@.len() <= o.slots
                &&& o.runs_room && (payload is None || payload_room)
                &&& !space.busy && o.placed is Ok && o.reserved is Ok
                &&& completion_refusal(o) is None
            }
            &&& refusal is None ==> {
                let block = geometry->Ok_0;
                let new = after.backings.last();
                &&& after.backings.len() == space.backings.len() + 1
                &&& after.backings.drop_last() == space.backings
                &&& new.identity == space.next_backing && new.pages == block.pages
                &&& new.extents == block_extents(o.runs->Ok_0@, block.prefix_pages, payload)
                &&& after.next_backing == space.next_backing + 1 && after.next_lease
                    == space.next_lease + 1
                &&& after.image_end >= block.end && !after.busy
            }
            &&& refusal is Some ==> after.backings == space.backings && after.image_end
                == space.image_end && after.busy == space.busy
            &&& geometry is Err ==> after == space && refusal == Some(geometry->Err_0)
            &&& after.views == space.views
        }),
{
    let added = block_outcome(space, geometry, payload, payload_room, o);
    if added.1 is None {
        assert(added.0.backings.drop_last() =~= space.backings);
    }
}

/// What completes a plan: memory, a page table that takes every part, and tables for every part.
pub proof fn completion_needs_every_part(o: BuildingOutcomes)
    ensures
        completion_refusal(o) is None <==> o.backing_room && o.preflight is Ok && (
        o.funded matches Ok(parts) && parts == o.parts) && o.change_room && forall|i: int|
            0 <= i < o.prepared@.len() ==> (#[trigger] o.prepared@[i]) is Ok,
        !o.backing_room ==> completion_refusal(o) == Some(SpaceError::NoFrame),
        o.backing_room && o.preflight is Err ==> completion_refusal(o) == Some(o.preflight->Err_0),
        o.backing_room && o.preflight is Ok && o.funded is Err ==> completion_refusal(o) == Some(
            o.funded->Err_0,
        ),
{
    address_space::first_refusal_counts(o.prepared@, 0);
}

/// What was had for a block that is not mapped comes back: its frames exactly if they were had, with
/// the payload's exactly if it was listed, and the ledger's reservation exactly if it was made.
pub proof fn failed_blocks_give_back_what_was_had(
    space: SpaceView,
    geometry: Result<BlockGeometry, SpaceError>,
    payload: Option<(usize, usize)>,
    payload_room: bool,
    o: BuildingOutcomes,
    failure: BuildingFailure,
)
    requires
        block_gives_up(space, geometry, payload, payload_room, o, failure),
    ensures
        failure.backing is Some <==> {
            &&& geometry matches Ok(block) && block.prefix_pages > 0
            &&& 0 < space.next_backing < u64::MAX && 0 < space.next_lease < u64::MAX
            &&& o.runs matches Ok(runs) && runs@.len() <= o.slots
            &&& o.runs_room
        },
        failure.backing matches Some(back) ==> {
            let frames = o.runs->Ok_0@;
            &&& forall|i: int|
                0 <= i < frames.len() ==> #[trigger] back@.extents[i] == backing::laid_out(
                    frames,
                )[i]
            &&& back@.extents.len() == frames.len() + (if payload is Some && payload_room {
                1int
            } else {
                0
            })
        },
        failure.roll_back <==> failure.backing is Some && (payload is None || payload_room)
            && !space.busy && o.placed is Ok && o.reserved is Ok,
{
}

/// A mapped block stands where the image ended, to be read only, with all of its pages, and under
/// its own lease.
pub proof fn mapped_blocks_stand_behind_the_image(
    space: SpaceView,
    block: BlockGeometry,
    prefix_len: usize,
    payload: Option<(usize, usize)>,
    o: BuildingOutcomes,
    mapped: MappedBlock,
)
    requires
        block_mapped(space, block, prefix_len, payload, o, mapped),
        block.pages * 4096 <= usize::MAX,
    ensures
        mapped.base == space.image_end,
        mapped.request.placement == (map_intent::MapPlacement::FixedEmpty {
            usable_start: space.image_end,
        }),
        mapped.request.bytes == block.pages * 4096,
        mapped.request.current is ReadOnly && mapped.request.maximum is ReadOnly,
        mapped.request.owner == RegionOwner::Lease(space.next_lease),
        mapped.request.result is None,
{
}

/// Frames fit an image exactly if there is an outcome for each run and those that were had are as
/// many as the run has pages.
pub proof fn outcomes_have_as_many_frames_as_pages(
    runs: Seq<PageRun>,
    outcomes: Seq<BuildingOutcomes>,
    i: int,
)
    requires
        outcomes_fit(runs, outcomes),
        0 <= i < runs.len(),
        outcomes[i].runs is Ok,
    ensures
        outcomes.len() == runs.len(),
        backing::total_pages(outcomes[i].runs->Ok_0@) == runs[i].end - runs[i].start,
{
}

} // verus!
