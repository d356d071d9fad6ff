//! Address spaces: what is mapped, how it changes, and how it is taken apart.
use kernel_task::address_space::{
    AddressSpaceState, BoundAddressSpace, MapLayout, ObjectView, PlanFailure,
};
use kernel_task::backing;
use kernel_task::backing::{assemble_prepared_backing, BackingExtent, CopyChunk, Holding, InstallSpan};
use kernel_task::bootstrap;
use kernel_task::building_calls;
use kernel_task::building_calls::BuildingOutcomes;
use kernel_task::elf_layout;
use kernel_task::elf_layout::{LoadSegment, PageRun, SegmentCopy};
use kernel_task::error::SystemCallError;
use kernel_task::execution::ExecutionBinding;
use kernel_task::job::JobTree;
use kernel_task::launch;
use kernel_task::launch::{LaunchFailure, LaunchOutcomes, Launched, StartupBuildError};
use kernel_task::lifecycle::{EnterRunning, Lifecycle, ProcessState};
use kernel_task::map_intent;
use kernel_task::map_intent::{
    AnonymousClass, LedgerChange, MapAuthority, MapBacking, MapIntent, MapPlacement, MapSource,
    MemoryMapRequest, MemoryPlacement, PinnedWriteChunk, ProcessMapFlags, ResultSlot, UserSpace,
};
use kernel_task::memory_change;
use kernel_task::memory_change::{
    CompletionStage, MemoryChangeCompletion, ProtectIntent, PublishedTableChanges, ReleaseStep,
    RetireTurn, RetiringObjectView, RetiringSpaceChange, TableOutcome,
};
use kernel_task::memory_object::Protection;
use kernel_task::memory_pool::{FundError, PoolError};
use kernel_task::object::HandleRole;
use kernel_task::process::IsaRequirement;
use kernel_task::region::{
    public_page_range, BackingRetire, BackingView, ObjectMappingLease, PageRange, Region,
    RegionKind, RegionOwner, RetiringFragment,
};
use kernel_task::resources::Counter;
use kernel_task::running_change;
use kernel_task::running_change::{ChangeOutput, PreparedChange};
use kernel_task::shootdown;
use kernel_task::shootdown::{
    AddressSpaceEpochs, PrepareShootdownError, ReserveError, ShootdownSynchronization,
};
use kernel_task::space;
use kernel_task::space::{ChangeError, MapError, SpaceError};
use kernel_task::space_drain::{
    is_held_once, DrainRegion, RetiredSpaceResource, SpaceDrain, TableDrainStep,
};
use kernel_task::translation;
use kernel_task::translation::{AccessError, PageMapping};
use kernel_task::view_permits::PermitRequirement;

const PAGE: usize = 4096;
const USER: UserSpace = UserSpace { top: 0x100_0000, stack_bytes: 0x10_0000 };
const RW: Protection = Protection::ReadWrite;

fn running() -> Lifecycle {
    let mut lifecycle = Lifecycle::building(8);
    lifecycle.attach_member(Ok(100), true).unwrap();
    assert!(lifecycle.enter_building_op());
    let mut out = vec![];
    lifecycle.begin_running(1, &mut out).unwrap();
    lifecycle
}

fn built(runs: Result<Vec<(usize, usize)>, SpaceError>) -> BuildingOutcomes {
    BuildingOutcomes {
        runs,
        slots: 8,
        runs_room: true,
        placed: Ok(layout(1, 2)),
        reserved: Ok(()),
        backing_room: true,
        preflight: Ok(()),
        parts: 1,
        funded: Ok(1),
        change_room: true,
        prepared: vec![Ok(())],
    }
}

fn range(page: usize, pages: usize) -> PageRange {
    PageRange { start: page * PAGE, pages }
}

fn layout(page: usize, pages: usize) -> MapLayout {
    MapLayout { usable: range(page, pages), reservation: range(page, pages) }
}

fn fragment(page: usize, pages: usize, backing: BackingView) -> RetiringFragment {
    RetiringFragment {
        range: range(page, pages),
        owner: RegionOwner::AddressSpace,
        kind: RegionKind::Mapping { backing, current: RW, maximum: RW },
        backing_retire: BackingRetire::Release,
    }
}

#[test]
fn refusals_are_reported() {
    assert_eq!(space::map_space_error(SpaceError::Conflict), SystemCallError::AddressConflict);
    assert_eq!(space::map_building_error(SpaceError::Conflict), SystemCallError::InvalidAddress);
    assert_eq!(space::post_validate_error(SpaceError::BadSegment), SystemCallError::InternalError);
    assert_eq!(space::map_change_error(ChangeError::Guard), SpaceError::NotMapped);
    assert_eq!(space::public_change_error(ChangeError::RegionLimit), SystemCallError::ReachLimit);
    assert_eq!(space::map_table_error(MapError::FrameExhausted), SpaceError::NoFrame);
    assert_eq!(
        space::map_funded_error(FundError::Quota(PoolError::QuotaExceeded)),
        SpaceError::QuotaExceeded
    );
    assert_eq!(public_page_range(0x1000, 0x2000), Ok(range(1, 2)));
    assert_eq!(public_page_range(0x1001, 0x2000), Err(SystemCallError::IllegalArgument));
    assert_eq!(public_page_range(0x1000, 0), Err(SystemCallError::IllegalArgument));
}

#[test]
fn backings_own_their_pages() {
    let funded = vec![(100, 2), (300, 3)];
    assert!(assemble_prepared_backing(7, 5, &funded, 0, true).is_err());
    let mut backing = assemble_prepared_backing(7, 5, &funded, 2, true).unwrap();
    assert_eq!(backing.identity(), 7);
    let chunks = backing.write_from_start(3 * PAGE);
    assert_eq!(chunks[0], CopyChunk { source: 0, physical: 100 * PAGE, bytes: 2 * PAGE });
    assert_eq!(chunks[1], CopyChunk { source: 2 * PAGE, physical: 300 * PAGE, bytes: PAGE });
    let spans = backing.preflight_install(range(50, 3), PAGE, true, None).unwrap();
    assert_eq!(
        spans,
        vec![
            InstallSpan { vpn: 50, pages: 1, ppn: 101 },
            InstallSpan { vpn: 51, pages: 2, ppn: 300 },
        ]
    );
    // Releasing the middle page of a run splits it.
    let mut permits = 3;
    let (gone, pages) = backing.release_one(3 * PAGE, PAGE, &mut permits);
    assert_eq!((gone.offset_pages, gone.base, gone.pages), (3, 301, 1));
    assert_eq!((pages, permits), (1, 1));
    let mut left = vec![];
    while !backing.is_empty() {
        let extent = backing.pop_extent();
        left.push((extent.offset_pages, extent.base, extent.pages));
    }
    left.sort();
    assert_eq!(left, vec![(0, 100, 2), (2, 300, 1), (4, 302, 1)]);
    let whole = BackingExtent { offset_pages: 1, base: 10, pages: 4, holding: Holding::Funded };
    let (a, b) = whole.split_at(1);
    assert_eq!((a.pages, b.offset_pages, b.base, b.pages), (1, 2, 11, 3));
}

#[test]
fn requests_to_map_are_read() {
    let request = MemoryMapRequest {
        bytes: 5000,
        guard_before: 0,
        guard_after: 0,
        address: 0,
        result_address: 0x2000,
        cookie: 9,
        source: 0,
        source_offset: 0,
        protection: Some(RW),
        placement: Some(MemoryPlacement::Anywhere),
        reserved: 0,
    };
    let clear = Ok(ResultSlot { reserved_clear: true, committed: 0 });
    let intent = map_intent::memory_map(request, clear).unwrap();
    assert_eq!((intent.pages(), intent.source), (2, MapSource::Anonymous));
    assert_eq!((intent.placement, intent.result), (MapPlacement::Anywhere, Some((0x2000, 9))));
    let bad = Err(SystemCallError::IllegalArgument);
    let same = |r: Result<MapIntent, SystemCallError>| r.map(|_| ());
    assert_eq!(same(map_intent::memory_map(MemoryMapRequest { cookie: 0, ..request }, clear)), bad);
    assert_eq!(same(map_intent::memory_map(MemoryMapRequest { bytes: 0, ..request }, clear)), bad);
    let used = Ok(ResultSlot { reserved_clear: true, committed: 1 });
    assert_eq!(same(map_intent::memory_map(request, used)), bad);
    let none = MemoryMapRequest { protection: None, ..request };
    assert!(map_intent::memory_map(none, clear).is_err());
    let lease = MapIntent::object_lease(0x5000, PAGE, RW);
    assert_eq!(lease.placement, MapPlacement::FixedEmpty { usable_start: 0x5000 });
    let chunks = map_intent::pin_map_result(0x2000, &vec![Some(0x9_0000)], true).unwrap();
    assert_eq!(
        chunks[0],
        PinnedWriteChunk { physical: 0x9_0000, result_offset: 0, bytes: 64 }
    );
    assert_eq!(map_intent::commit_cookie(&chunks), 0x9_0000 + 56);
    assert!(map_intent::pin_map_result(0x2000, &vec![None], true).is_err());
}

#[test]
fn builders_map_the_image_or_the_stack() {
    let flags = ProcessMapFlags { read: true, write: true, execute: false, unknown: false };
    let end = 0x3000;
    assert_eq!(
        map_intent::building_intent(USER, 0x1000, 0x2000, flags),
        Ok((RW, Some(end)))
    );
    let base = USER.stack_base();
    assert_eq!(map_intent::building_intent(USER, base, PAGE, flags), Ok((RW, None)));
    assert_eq!(
        map_intent::building_intent(USER, base - PAGE, 2 * PAGE, flags),
        Err(SpaceError::BadSegment)
    );
    let both = ProcessMapFlags { execute: true, ..flags };
    assert_eq!(map_intent::process_protection(both), Err(SpaceError::BadSegment));
    let space = BoundAddressSpace::new();
    assert_eq!(space.validate_building_anonymous(USER, 0x1000, PAGE, flags, Ok(())), Ok(()));
    assert_eq!(
        space.validate_building_anonymous(USER, 0x1001, PAGE, flags, Ok(())),
        Err(SpaceError::BadSegment)
    );
    assert_eq!(
        space.validate_building_anonymous(USER, 0x1000, PAGE, flags, Err(ChangeError::Conflict)),
        Err(SpaceError::Conflict)
    );
}

#[test]
fn access_is_checked_page_by_page() {
    let rw = translation::protection_flags(RW);
    let ro = translation::protection_flags(Protection::ReadOnly);
    let pages = vec![
        Some(PageMapping { ppn: 5, flags: rw }),
        Some(PageMapping { ppn: 9, flags: ro }),
    ];
    assert_eq!(translation::check_range(USER, 0x1800, PAGE, false, &pages), Ok(()));
    assert_eq!(
        translation::check_range(USER, 0x1800, PAGE, true, &pages),
        Err(AccessError::Permission)
    );
    assert_eq!(
        translation::check_range(USER, 0x1800, PAGE, false, &vec![pages[0], None]),
        Err(AccessError::NotMapped)
    );
    assert_eq!(
        translation::check_range(USER, USER.top, 1, false, &vec![None]),
        Err(AccessError::BadRange)
    );
    let chunks = translation::write_building(USER, 0x1800, PAGE, &pages).unwrap();
    assert_eq!((chunks[0].physical, chunks[0].bytes), (5 * PAGE + 0x800, 0x800));
    assert_eq!((chunks[1].source, chunks[1].physical), (0x800, 9 * PAGE));
}

#[test]
fn images_are_laid_out_in_runs() {
    let code = LoadSegment {
        vaddr: 0x1000,
        offset: 0,
        filesz: 0x1800,
        memsz: 0x1800,
        readable: true,
        writable: false,
        executable: true,
    };
    let data = LoadSegment {
        vaddr: 0x3000,
        offset: 0x2000,
        filesz: 0x100,
        memsz: 0x1100,
        readable: true,
        writable: true,
        executable: false,
    };
    let segments = vec![code, data];
    let (runs, end) = elf_layout::plan_elf_layout(USER, &segments, true).unwrap();
    assert_eq!(
        runs,
        vec![
            PageRun { start: 1, end: 3, protection: Protection::ReadExecute },
            PageRun { start: 3, end: 5, protection: RW },
        ]
    );
    assert_eq!((runs[1].vaddr(), runs[1].bytes()), (0x3000, 0x2000));
    assert_eq!(elf_layout::segment_source(data, 0x2100), Ok((0x2000, 0x2100)));
    assert!(elf_layout::segment_source(data, 0x20ff).is_err());
    let outcomes = |second: Result<Vec<(usize, usize)>, SpaceError>| {
        vec![
            built(Ok(vec![(100, 2)])),
            built(second),
        ]
    };
    let mut space = BoundAddressSpace::new();
    let good = outcomes(Ok(vec![(200, 1), (300, 1)]));
    let written = vec![Ok(()), Ok(())];
    let loaded =
        building_calls::load_elf(&mut space, USER, &segments, true, &good, 0x2100, &written);
    let image = loaded.ok().unwrap();
    let asked: Vec<_> = image
        .requests
        .iter()
        .map(|r| (r.placement, r.bytes, r.current, r.backing))
        .collect();
    assert_eq!(
        asked,
        vec![
            (
                MapPlacement::FixedEmpty { usable_start: 0x1000 },
                0x2000,
                Protection::ReadExecute,
                MapBacking::Anonymous { identity: 1, class: AnonymousClass::InitialExecutable },
            ),
            (
                MapPlacement::FixedEmpty { usable_start: 0x3000 },
                0x2000,
                RW,
                MapBacking::Anonymous { identity: 2, class: AnonymousClass::Data },
            ),
        ]
    );
    assert_eq!(
        image.copies[1],
        SegmentCopy { vaddr: data.vaddr, offset: 0x2000, len: 0x100 }
    );
    assert_eq!(space.image_end(), end);
    assert_eq!(space.mint_backing(), Ok(3));
    // What was mapped before a failure stays.
    let mut space = BoundAddressSpace::new();
    let bad = outcomes(Err(SpaceError::NoFrame));
    let refused =
        building_calls::load_elf(&mut space, USER, &segments, true, &bad, 0x2100, &written);
    assert_eq!(refused.err().unwrap().error, SpaceError::NoFrame);
    assert_eq!(space.image_end(), 0x3000);
    assert_eq!(space.mint_backing(), Ok(2));
    let both = vec![LoadSegment { writable: true, ..code }];
    assert_eq!(
        elf_layout::plan_elf_layout(USER, &both, true).err(),
        Some(SpaceError::BadSegment)
    );
}

fn asking() -> MapIntent {
    MapIntent {
        bytes: 2 * PAGE,
        guard_before: 0,
        guard_after: 0,
        placement: MapPlacement::FixedEmpty { usable_start: 0x8000 },
        protection: RW,
        result: Some((0x100, 1)),
        source: MapSource::Anonymous,
        authority: MapAuthority::AddressSpace,
    }
}

#[test]
fn runs_of_an_object_lie_one_behind_the_other() {
    let runs = vec![(500, 1), (800, 2), (10, 3)];
    assert_eq!(
        backing::object_spans(50, &runs),
        Ok(vec![
            InstallSpan { vpn: 50, pages: 1, ppn: 500 },
            InstallSpan { vpn: 51, pages: 2, ppn: 800 },
            InstallSpan { vpn: 53, pages: 3, ppn: 10 },
        ])
    );
    assert_eq!(backing::span_pages(&runs), Some(6));
    assert_eq!(backing::object_spans(usize::MAX - 5, &runs), Err(SpaceError::BadSegment));
    assert!(backing::object_spans(usize::MAX - 6, &runs).is_ok());
    assert_eq!(backing::span_pages(&vec![(0, usize::MAX), (0, 1)]), None);
}

#[test]
fn plans_are_one_at_a_time() {
    let mut space = BoundAddressSpace::new();
    assert_eq!(space.validate_user_map(Ok(())), Ok(()));
    assert_eq!(
        space.validate_user_map(Err(ChangeError::NotCovered)),
        Err(SystemCallError::NotMapped)
    );
    let plan = space.plan_user_map(&asking(), 2, Ok(layout(8, 2)), true, Ok(()), Ok(()), Ok(())).unwrap();
    assert_eq!(plan.identity, 1);
    assert_eq!(
        plan.request,
        map_intent::map_request(
            &asking(),
            RegionOwner::AddressSpace,
            MapBacking::Anonymous { identity: 1, class: AnonymousClass::Data },
        )
    );
    assert_eq!(space.validate_user_map(Ok(())), Err(SystemCallError::ObjectBusy));
    let second = space.plan_user_map(&asking(), 2, Ok(layout(8, 2)), true, Ok(()), Ok(()), Ok(()));
    assert!(matches!(
        second,
        Err(PlanFailure { error: SystemCallError::ObjectBusy, roll_back: false })
    ));
    assert_eq!(
        space.complete_memory_change(2, 1, true, &vec![]),
        Err(SpaceError::NoFrame)
    );
    assert_eq!(space.ensure_table_transaction_available(), Ok(()));
    let wrong = space.plan_user_map(&asking(), 3, Ok(layout(8, 2)), true, Ok(()), Ok(()), Ok(()));
    assert!(matches!(
        wrong,
        Err(PlanFailure { error: SystemCallError::IllegalArgument, .. })
    ));
    // The identity that it took is used up.
    assert_eq!(space.mint_backing(), Ok(3));
    let failed = vec![Ok(()), Err(MapError::Conflict)];
    let existing = space.prepare_user_existing_change(Ok(()), true, &failed);
    assert!(matches!(
        existing,
        Err(PlanFailure { error: SpaceError::Conflict, roll_back: true })
    ));
    let permits = vec![PermitRequirement { source: 0, count: 2 }];
    assert_eq!(space.validate_user_change(Ok(permits.clone()), true), Ok(permits.clone()));
    assert_eq!(
        space.validate_user_change(Ok(permits), false),
        Err(SystemCallError::OutOfMemory)
    );
}

#[test]
fn objects_are_held_while_they_are_shown() {
    let mut space = BoundAddressSpace::new();
    assert!(space.install_view_owner(40, 4));
    assert!(!space.install_view_owner(40, 4));
    assert_eq!(space.view_core(40), 4);
    let shown = Region {
        key: 1,
        range: range(8, 1),
        owner: RegionOwner::AddressSpace,
        kind: RegionKind::Mapping {
            backing: BackingView::Object { object: 40, offset: 0 },
            current: RW,
            maximum: RW,
        },
    };
    assert_eq!(space.release_view_region(40, &vec![shown]), None);
    assert_eq!(space.release_view_region(40, &vec![]), Some(4));
    let lease = ObjectMappingLease {
        lease: 1,
        region: 1,
        range: range(8, 1),
        object: 40,
        object_offset: 0,
        protection: RW,
    };
    assert!(!lease.matches_region(shown));
    assert!(lease.matches_region(Region { owner: RegionOwner::Lease(1), ..shown }));
    let mut state = AddressSpaceState::Unbound;
    assert!(matches!(state.bound(), Err(SpaceError::Unbound)));
    assert!(state.bind(space).is_ok());
    assert!(state.is_bound());
    assert!(state.bind(BoundAddressSpace::new()).is_err());
}

#[test]
fn shootdowns_are_refused_after_a_change() {
    let mut lifecycle = running();
    let idle = shootdown::prepare_shootdown(&lifecycle, Err(ReserveError::Busy)).unwrap();
    assert!(!idle.remote);
    assert_eq!(lifecycle.enter_running_if(1, 2, true), EnterRunning::Entered);
    assert_eq!(
        shootdown::prepare_shootdown(&lifecycle, Err(ReserveError::Busy)),
        Err(PrepareShootdownError::Busy)
    );
    let mut epochs = AddressSpaceEpochs::unbound(3);
    assert!(epochs.commit_shootdown(&lifecycle, idle, 8, 2, true).is_err());
    assert_eq!(epochs.translation, 1);
    let prepared = shootdown::prepare_shootdown(&lifecycle, Ok(())).unwrap();
    let before = epochs.epochs();
    let sent = epochs.commit_shootdown(&lifecycle, prepared, 8, 2, true).unwrap();
    match sent {
        ShootdownSynchronization::Remote(fence) => {
            assert_eq!((fence.identity, fence.translation, fence.instruction), (3, 2, 2));
            assert_eq!((fence.start_vpn, fence.page_count), (8, 2));
        }
        _ => panic!("a hart executes the process"),
    }
    assert!(!epochs.local_is_current(before, true));
    assert!(epochs.local_is_current(epochs.epochs(), true));
    let building = Lifecycle::building(8);
    assert_eq!(
        shootdown::prepare_shootdown(&building, Ok(())),
        Err(PrepareShootdownError::NotRunning)
    );
}

fn change(space: &mut BoundAddressSpace) -> PreparedChange {
    let plan = space.plan_user_map(&asking(), 2, Ok(layout(8, 2)), true, Ok(()), Ok(()), Ok(())).unwrap();
    let funded = vec![(100, 2)];
    PreparedChange {
        asked: LedgerChange::Mapping(plan.request),
        spans: vec![],
        backing: Some(assemble_prepared_backing(plan.identity, 2, &funded, 1, true).unwrap()),
        view: Some(ObjectView { object: 40, core: 4 }),
        image_end: None,
        fragments: vec![],
        permits: vec![40],
    }
}

#[test]
fn running_changes_happen_whole_or_not_at_all() {
    let mut space = BoundAddressSpace::new();
    let mut epochs = AddressSpaceEpochs::unbound(3);
    let lifecycle = running();
    let plan = change(&mut space);
    let plan = running_change::fund_and_complete_running(
        &mut space,
        plan,
        1,
        Ok(1),
        true,
        &vec![Ok(())],
    );
    let (error, reclaimed) = running_change::start_running_memory_change(
        &mut space,
        &mut epochs,
        plan.ok().unwrap(),
        range(8, 2),
        false,
        ChangeOutput::MapResult,
        Err(SystemCallError::ReachLimit),
        &lifecycle,
        Ok(()),
        &lifecycle,
    )
    .err()
    .unwrap();
    assert_eq!(error, SystemCallError::ReachLimit);
    assert!(reclaimed.backing.is_some());
    assert_eq!(running_change::release_reclaimed_permits(&space, &reclaimed), vec![4]);
    assert_eq!(space.ensure_table_transaction_available(), Ok(()));
    assert_eq!(epochs.translation, 1);

    let plan = change(&mut space);
    let mut later = running();
    later.enter_running_if(1, 0, true);
    let (error, _) = running_change::start_running_memory_change(
        &mut space,
        &mut epochs,
        plan,
        range(8, 2),
        false,
        ChangeOutput::MapResult,
        Ok(()),
        &lifecycle,
        Ok(()),
        &later,
    )
    .err()
    .unwrap();
    assert_eq!(error, SystemCallError::ObjectBusy);

    let plan = change(&mut space);
    let started = running_change::start_running_memory_change(
        &mut space,
        &mut epochs,
        plan,
        range(8, 2),
        false,
        ChangeOutput::MapResult,
        Ok(()),
        &lifecycle,
        Ok(()),
        &lifecycle,
    )
    .ok()
    .unwrap();
    assert!(started.owes_result);
    assert!(matches!(started.synchronization, ShootdownSynchronization::Immediate));
    assert_eq!((epochs.translation, epochs.instruction), (2, 1));
    assert_eq!(space.view_core(40), 4);
}

#[test]
fn unfunded_changes_are_rolled_back() {
    let mut space = BoundAddressSpace::new();
    let plan = change(&mut space);
    let refused = running_change::fund_and_complete_running(
        &mut space,
        plan,
        1,
        Err(SpaceError::QuotaExceeded),
        true,
        &vec![],
    );
    assert_eq!(refused.err().unwrap().0, SystemCallError::QuotaExceeded);
    assert_eq!(space.ensure_table_transaction_available(), Ok(()));
    let parts = vec![vec![Ok(1), Ok(2)], vec![Ok(3)]];
    assert_eq!(
        running_change::fund_table_preflights(&parts, true),
        Ok(vec![vec![1, 2], vec![3]])
    );
    let short = vec![vec![Ok(1)], vec![Err(FundError::Physical)]];
    assert_eq!(
        running_change::fund_table_preflights(&short, true),
        Err(SpaceError::NoFrame)
    );
    let mut slices = Counter { used: 1, limit: 4 };
    assert_eq!(
        running_change::reserve_backing_split_metadata(&mut slices, 4, true),
        Err(SpaceError::ReachLimit)
    );
    assert_eq!(slices.used, 1);
}

#[test]
fn what_a_change_took_away_is_released() {
    let mut space = BoundAddressSpace::new();
    let plan = change(&mut space);
    space.commit_change(plan.backing, plan.view, None, &plan.fragments);
    let outcome = TableOutcome { retired: vec![71], unused: vec![72] };
    let tables = PublishedTableChanges { outcomes: vec![outcome] };
    let fragments = vec![
        fragment(8, 2, BackingView::Anonymous { identity: 1, offset: 0 }),
        fragment(20, 1, BackingView::Object { object: 40, offset: 0 }),
    ];
    let views = vec![RetiringObjectView { object: 40, core: 4, owner: None }];
    let mut retiring = RetiringSpaceChange::new(tables, fragments, vec![40], 0, views);
    let mut tables = vec![];
    let mut pages = 0;
    let mut permits = vec![];
    let mut objects = vec![];
    loop {
        match retiring.advance(&mut space, &vec![]) {
            ReleaseStep::Table(frame) => tables.push(frame),
            ReleaseStep::Backing(extent) => pages += extent.pages,
            ReleaseStep::Permit { object, core } => permits.push((object, core)),
            ReleaseStep::Object(view) => objects.push(view.object),
            ReleaseStep::Finished => break,
            _ => {}
        }
    }
    assert_eq!(tables, vec![71, 72]);
    assert_eq!(pages, 2);
    assert_eq!(permits, vec![(40, 4)]);
    assert_eq!(objects, vec![40]);
}

#[test]
fn completions_go_through_their_stages() {
    let mut completion = MemoryChangeCompletion::new(true);
    completion.install();
    completion.complete();
    assert_eq!(completion.stage, CompletionStage::Retiring);
    assert_eq!(completion.advance_retire(ReleaseStep::Progress, 1, 4), RetireTurn::Again);
    assert_eq!(completion.advance_retire(ReleaseStep::Progress, 4, 4), RetireTurn::Yield);
    assert_eq!(
        completion.advance_retire(ReleaseStep::Finished, 1, 4),
        RetireTurn::Finish { release_obligation: true }
    );
    assert_eq!(completion.stage, CompletionStage::Complete);
    let touch = |from, to| memory_change::needs_instruction_fence(&vec![ProtectIntent { from, to }]);
    assert!(touch(Protection::ReadOnly, Protection::ReadExecute));
    assert!(touch(Protection::ReadExecute, Protection::ReadOnly));
    assert!(!touch(Protection::ReadOnly, RW));
}

#[test]
fn draining_takes_everything_apart() {
    let backing = assemble_prepared_backing(1, 2, &vec![(100, 2)], 1, true).unwrap();
    let regions = vec![
        DrainRegion { object: Some(40), permit: true },
        DrainRegion { object: None, permit: false },
    ];
    assert!(is_held_once(&regions, &vec![40]));
    assert!(!is_held_once(&regions, &vec![]));
    assert!(!is_held_once(&regions, &vec![40, 41]));
    assert!(!is_held_once(&regions, &vec![40, 40]));
    let mut drain = SpaceDrain::new(
        regions,
        vec![40],
        vec![backing],
        vec![TableDrainStep::Retired(71), TableDrainStep::Progress],
    );
    let mut seen = vec![];
    loop {
        let (_, complete) = drain.drain(1);
        if let Some(resource) = drain.take_retired() {
            seen.push(resource);
        }
        if complete {
            break;
        }
    }
    assert!(matches!(seen[0], RetiredSpaceResource::View { object: 40, permit: true, last: true }));
    assert!(seen.iter().any(|r| matches!(r, RetiredSpaceResource::Backing(e) if e.pages == 2)));
    assert!(seen.iter().any(|r| matches!(r, RetiredSpaceResource::Table(71))));
    assert!(matches!(seen.last(), Some(RetiredSpaceResource::Root)));
}

fn launching() -> LaunchOutcomes {
    LaunchOutcomes {
        entries: true,
        slots: true,
        prefix: Ok(PAGE),
        payload: Some(Some((700, 1))),
        payload_len: 100,
        payload_room: true,
        block: built(Ok(vec![(50, 1)])),
        domain: Some(2),
        ready: true,
        room: true,
        admitted: Ok(()),
        built: Some(900),
        thread_room: true,
        member_room: true,
    }
}

struct First {
    tree: JobTree,
    pid: u64,
    lifecycle: Lifecycle,
    space: BoundAddressSpace,
    binding: ExecutionBinding,
}

fn first() -> First {
    let mut tree = JobTree::root();
    let pid = tree.alloc_pid().unwrap();
    let mut space = BoundAddressSpace::new();
    space.extend_image(0x3000);
    First {
        tree,
        pid,
        lifecycle: Lifecycle::building(4),
        space,
        binding: ExecutionBinding::unbound(),
    }
}

fn try_launch(f: &mut First, o: &LaunchOutcomes) -> Result<Launched, LaunchFailure> {
    launch::launch_bootstrap(
        &mut f.tree,
        0,
        f.pid,
        500,
        &mut f.lifecycle,
        &mut f.space,
        &mut f.binding,
        USER,
        0x1000,
        IsaRequirement::D64,
        vec![],
        11,
        12,
        o,
    )
}

#[test]
fn first_process_is_launched_whole() {
    let mut f = first();
    let launched = try_launch(&mut f, &launching()).ok().unwrap();
    assert_eq!(launched.thread, 900);
    assert_eq!(
        (launched.context.entry, launched.context.stack_pointer),
        (0x1000, USER.top as u64)
    );
    assert_eq!((launched.context.arg1, launched.context.arg2), (0x3000, PAGE as u64 + 100));
    let roles: Vec<HandleRole> = launched.handles.iter().map(|h| h.role).collect();
    assert_eq!(roles, vec![HandleRole::ProcessControl, HandleRole::MemoryPool]);
    assert_eq!(f.tree.member_process(0, f.pid), Some(500));
    assert_eq!(f.lifecycle.snapshot().0, ProcessState::Running);
    assert_eq!((f.binding.requirement(), f.binding.domain()), (IsaRequirement::D64, 2));
    assert_eq!(f.space.image_end(), 0x3000 + 2 * PAGE);
}

#[test]
fn first_process_that_fails_is_given_up() {
    let failures: Vec<(LaunchOutcomes, SpaceError, bool, usize, usize)> = vec![
        (LaunchOutcomes { entries: false, ..launching() }, SpaceError::NoFrame, false, 0, 0),
        (LaunchOutcomes { slots: false, ..launching() }, SpaceError::NoFrame, false, 2, 0),
        (
            LaunchOutcomes { prefix: Err(StartupBuildError::Overflow), ..launching() },
            SpaceError::BadSegment,
            true,
            2,
            0,
        ),
        (
            LaunchOutcomes { prefix: Err(StartupBuildError::AllocationFailed), ..launching() },
            SpaceError::NoFrame,
            true,
            2,
            0,
        ),
        (LaunchOutcomes { payload: Some(None), ..launching() }, SpaceError::NoFrame, true, 2, 0),
        (LaunchOutcomes { payload: None, ..launching() }, SpaceError::BadSegment, true, 2, 0),
        (
            LaunchOutcomes { block: built(Err(SpaceError::QuotaExceeded)), ..launching() },
            SpaceError::QuotaExceeded,
            true,
            2,
            0,
        ),
        (LaunchOutcomes { domain: None, ..launching() }, SpaceError::BadSegment, true, 2, 0),
        (LaunchOutcomes { ready: false, ..launching() }, SpaceError::NoFrame, true, 2, 0),
        (
            LaunchOutcomes { admitted: Err(SpaceError::Conflict), ..launching() },
            SpaceError::Conflict,
            true,
            2,
            0,
        ),
        (LaunchOutcomes { built: None, ..launching() }, SpaceError::NoFrame, true, 2, 0),
        (LaunchOutcomes { member_room: false, ..launching() }, SpaceError::NoFrame, true, 2, 1),
    ];
    for (o, error, give_back, close, dropped) in failures {
        let mut f = first();
        let failure = try_launch(&mut f, &o).err().unwrap();
        assert_eq!(failure.error, error);
        assert_eq!((failure.give_back, failure.close.len()), (give_back, close));
        assert_eq!(failure.dropped.len(), dropped);
        assert_eq!(failure.block.is_some(), o.block.runs.is_err());
        assert_eq!(f.tree.member_process(0, f.pid), None);
        assert!(f.lifecycle.is_reapable());
        assert_eq!(f.binding.word, 0);
    }
}

#[test]
fn process_is_made_from_an_image() {
    let code = LoadSegment {
        vaddr: 0x1000,
        offset: 0,
        filesz: 0x100,
        memsz: 0x100,
        readable: true,
        writable: false,
        executable: true,
    };
    let try_spawn = |state: &mut AddressSpaceState, prepared, stack: &BuildingOutcomes| {
        let mut lifecycle = Lifecycle::building(4);
        let made = launch::spawn_from_elf(
            &mut lifecycle,
            state,
            Ok(()),
            prepared,
            USER,
            &vec![code],
            true,
            &vec![built(Ok(vec![(100, 1)]))],
            0x100,
            &vec![Ok(())],
            stack,
        );
        (made.map(|image| image.requests.len()).map_err(|f| f.error), lifecycle.is_reapable())
    };
    let stack = || built(Ok(vec![(1000, 0x100)]));
    let mut state = AddressSpaceState::Unbound;
    assert_eq!(
        try_spawn(&mut state, Err(SystemCallError::QuotaExceeded), &stack()),
        (Err(SpaceError::QuotaExceeded), false)
    );
    assert!(!state.is_bound());
    assert_eq!(try_spawn(&mut state, Ok(BoundAddressSpace::new()), &stack()), (Ok(2), false));
    assert_eq!(state.bound().ok().unwrap().image_end(), 0x2000);
    assert_eq!(
        try_spawn(&mut state, Ok(BoundAddressSpace::new()), &stack()),
        (Err(SpaceError::NoFrame), false)
    );
    let mut other = AddressSpaceState::Unbound;
    let short = built(Err(SpaceError::NoFrame));
    assert_eq!(
        try_spawn(&mut other, Ok(BoundAddressSpace::new()), &short),
        (Err(SpaceError::NoFrame), true)
    );
    let geometry = bootstrap::bootstrap_block(USER, 0x3000, PAGE, 1, 50).unwrap();
    assert_eq!((geometry.prefix_pages, geometry.pages), (1, 2));
}

#[test]
fn stack_and_block_are_mapped() {
    let mut space = BoundAddressSpace::new();
    let stack = built(Ok(vec![(1000, 0x100)]));
    let request = building_calls::map_stack(&mut space, USER, &stack).ok().unwrap();
    assert_eq!((request.current, request.maximum), (RW, RW));
    assert_eq!(request.owner, RegionOwner::AddressSpace);
    assert_eq!(space.image_end(), 0);
    // Without an image there is no place for the block.
    let early = building_calls::map_bootstrap_block(
        &mut space, USER, PAGE, None, 0, true, &built(Ok(vec![(50, 1)])),
    );
    assert_eq!(early.err().unwrap().error, SpaceError::BadSegment);
    space.extend_image(0x3000);
    let mapped = building_calls::map_bootstrap_block(
        &mut space,
        USER,
        2 * PAGE,
        Some((700, 3)),
        2 * PAGE + 1,
        true,
        &built(Ok(vec![(50, 1), (60, 1)])),
    )
    .ok()
    .unwrap();
    assert_eq!(mapped.base, 0x3000);
    assert_eq!((mapped.request.bytes, mapped.request.current), (5 * PAGE, Protection::ReadOnly));
    assert_eq!(mapped.request.owner, RegionOwner::Lease(1));
    assert_eq!(
        mapped.chunks,
        vec![
            CopyChunk { source: 0, physical: 50 * PAGE, bytes: PAGE },
            CopyChunk { source: PAGE, physical: 60 * PAGE, bytes: PAGE },
        ]
    );
    assert_eq!(space.image_end(), 0x3000 + 5 * PAGE);
    let no_room = building_calls::map_bootstrap_block(
        &mut space, USER, PAGE, Some((700, 1)), 5, false, &built(Ok(vec![(50, 1)])),
    );
    let failure = no_room.err().unwrap();
    assert_eq!(failure.error, SpaceError::NoFrame);
    assert!(failure.backing.is_some());
    let unfunded = BuildingOutcomes {
        funded: Err(SpaceError::QuotaExceeded),
        ..built(Ok(vec![(50, 1)]))
    };
    let failure =
        building_calls::map_building_protection(&mut space, 0x50_0000, PAGE, RW, None, &unfunded)
            .err()
            .unwrap();
    assert_eq!(failure.error, SpaceError::QuotaExceeded);
    assert!(failure.roll_back);
    assert_eq!(space.ensure_table_transaction_available(), Ok(()));
    let mut state = AddressSpaceState::Unbound;
    assert_eq!(state.bound_mut().err(), Some(SpaceError::Unbound));
    assert!(state.bind(space).is_ok());
    assert_eq!(state.bound_mut().ok().unwrap().image_end(), 0x3000 + 5 * PAGE);
}

#[test]
fn answer_is_valid_only_with_its_last_word() {
    let piece = |physical, result_offset, bytes| PinnedWriteChunk { physical, result_offset, bytes };
    let whole = map_intent::write_payload(&vec![piece(0x1000, 0, 64)]);
    assert_eq!(whole, vec![piece(0x1000, 0, 56)]);
    let cut = map_intent::write_payload(&vec![piece(0x1fd8, 0, 40), piece(0x5000, 40, 24)]);
    assert_eq!(cut, vec![piece(0x1fd8, 0, 40), piece(0x5000, 40, 16)]);
    let apart = map_intent::write_payload(&vec![piece(0x1fc8, 0, 56), piece(0x5000, 56, 8)]);
    assert_eq!(apart, vec![piece(0x1fc8, 0, 56)]);
}

#[test]
fn lease_knows_its_own_view() {
    let lease = ObjectMappingLease {
        lease: 3,
        region: 5,
        range: range(4, 2),
        object: 9,
        object_offset: PAGE,
        protection: RW,
    };
    let own = RetiringFragment {
        range: range(4, 2),
        owner: RegionOwner::Lease(3),
        kind: RegionKind::Mapping {
            backing: BackingView::Object { object: 9, offset: PAGE },
            current: RW,
            maximum: RW,
        },
        backing_retire: BackingRetire::Keep,
    };
    assert!(lease.matches_fragment(own));
    assert!(!lease.matches_fragment(RetiringFragment { range: range(4, 1), ..own }));
    assert!(!lease.matches_fragment(RetiringFragment { owner: RegionOwner::Lease(4), ..own }));
    let other = RegionKind::Mapping {
        backing: BackingView::Object { object: 9, offset: 0 },
        current: RW,
        maximum: RW,
    };
    assert!(!lease.matches_fragment(RetiringFragment { kind: other, ..own }));
}

#[test]
fn first_thread_needs_code_and_a_stack() {
    let page = |flags| Some(PageMapping { ppn: 4, flags });
    let code = page(translation::USER | translation::EXECUTE);
    let stack = page(translation::USER | translation::WRITE);
    let bad = Err(SpaceError::BadSegment);
    assert_eq!(translation::validate_initial_context(0x8000, 0x2000, code, stack), Ok(()));
    assert_eq!(translation::validate_initial_context(0, 0x2000, code, stack), bad);
    assert_eq!(translation::validate_initial_context(0x8008, 0x2000, code, stack), bad);
    assert_eq!(translation::validate_initial_context(0x8000, 0, code, stack), bad);
    assert_eq!(translation::validate_initial_context(0x8000, 0x2000, None, stack), bad);
    assert_eq!(translation::validate_initial_context(0x8000, 0x2000, code, None), bad);
    assert_eq!(translation::validate_initial_context(0x8000, 0x2000, stack, stack), bad);
    assert_eq!(translation::validate_initial_context(0x8000, 0x2000, code, code), bad);
}

#[test]
fn shared_object_is_held_until_its_last_view() {
    let view = |object, permit| DrainRegion { object: Some(object), permit };
    let regions = vec![view(40, true), view(41, false), view(40, false), view(40, true)];
    assert!(is_held_once(&regions, &vec![40, 41]));
    assert!(!is_held_once(&regions, &vec![40]));
    let mut drain = SpaceDrain::new(regions, vec![40, 41], vec![], vec![]);
    let mut seen = vec![];
    loop {
        let (_, complete) = drain.drain(5);
        if let Some(resource) = drain.take_retired() {
            seen.push(resource);
        }
        if complete {
            break;
        }
    }
    let gone = |object, permit, last| RetiredSpaceResource::View { object, permit, last };
    assert_eq!(
        seen,
        vec![
            gone(40, true, false),
            gone(40, false, false),
            gone(41, false, true),
            gone(40, true, true),
            RetiredSpaceResource::Root,
        ]
    );
}
