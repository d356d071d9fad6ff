//! Requests to map memory, to take it away and to change its protection.
use kernel_task::address_space::{BoundAddressSpace, MapLayout, ObjectView};
use kernel_task::backing::InstallSpan;
use kernel_task::error::SystemCallError;
use kernel_task::handle::{ProcessHandleEntry, TableError};
use kernel_task::lifecycle::{EnterRunning, Lifecycle};
use kernel_task::map_intent;
use kernel_task::map_intent::{
    AnonymousClass, LedgerChange, MapAuthority, MapBacking, MapIntent, MapPlacement, MapSource,
};
use kernel_task::memory_calls;
use kernel_task::memory_calls::{
    AnonymousOutcomes, ChangeFailure, ExistingOutcomes, FinishOutcomes, ViewOutcomes,
};
use kernel_task::memory_change::ProtectIntent;
use kernel_task::memory_object::{MemoryObjectCore, Protection};
use kernel_task::object::{HandleRole, ObjectKind};
use kernel_task::region::{
    BackingRetire, BackingView, PageRange, RegionKind, RegionOwner, RetiringFragment,
};
use kernel_task::resources::Counter;
use kernel_task::rights;
use kernel_task::running_change::StartedChange;
use kernel_task::shootdown::{AddressSpaceEpochs, FenceRequest, ShootdownSynchronization};
use kernel_task::space::{ChangeError, MapError, SpaceError};
use kernel_task::view_permits::PermitRequirement;

const PAGE: usize = 4096;
const RW: Protection = Protection::ReadWrite;
const RO: Protection = Protection::ReadOnly;
const RX: Protection = Protection::ReadExecute;

fn running() -> Lifecycle {
    let mut lifecycle = Lifecycle::building(8);
    lifecycle.attach_member(Ok(100), true).unwrap();
    assert!(lifecycle.enter_building_op());
    let mut out = vec![];
    lifecycle.begin_running(1, &mut out).unwrap();
    lifecycle
}

fn on_hart() -> Lifecycle {
    let mut lifecycle = running();
    assert_eq!(lifecycle.enter_running_if(1, 2, true), EnterRunning::Entered);
    lifecycle
}

fn layout() -> MapLayout {
    MapLayout {
        usable: PageRange { start: 8 * PAGE, pages: 3 },
        reservation: PageRange { start: 7 * PAGE, pages: 5 },
    }
}

fn intent(protection: Protection) -> MapIntent {
    MapIntent {
        bytes: 3 * PAGE,
        guard_before: PAGE,
        guard_after: PAGE,
        placement: MapPlacement::Anywhere,
        protection,
        result: Some((0x100, 1)),
        source: MapSource::Anonymous,
        authority: MapAuthority::AddressSpace,
    }
}

fn funded() -> AnonymousOutcomes {
    AnonymousOutcomes {
        validated: Ok(()),
        runs: Ok(vec![(100, 2), (300, 1)]),
        slots: 2,
        runs_room: true,
        placed: Ok(layout()),
        backing_room: true,
        reserved: Ok(()),
        pinned: Ok(()),
        preflight: Ok(()),
    }
}

fn finishing() -> FinishOutcomes {
    FinishOutcomes {
        parts: 1,
        funded: Ok(1),
        change_room: true,
        prepared: vec![Ok(())],
        completion: Ok(()),
        harts: Ok(()),
    }
}

#[test]
fn anonymous_memory_is_mapped_or_its_pages_come_back() {
    let process = running();
    let failures: Vec<(AnonymousOutcomes, FinishOutcomes, SystemCallError, bool, bool)> = vec![
        (
            AnonymousOutcomes { validated: Err(ChangeError::Conflict), ..funded() },
            finishing(),
            SystemCallError::AddressConflict,
            false,
            false,
        ),
        (
            AnonymousOutcomes { runs: Err(SpaceError::QuotaExceeded), ..funded() },
            finishing(),
            SystemCallError::QuotaExceeded,
            false,
            false,
        ),
        (
            AnonymousOutcomes { slots: 1, ..funded() },
            finishing(),
            SystemCallError::ReachLimit,
            false,
            false,
        ),
        (
            AnonymousOutcomes { placed: Err(ChangeError::RegionLimit), ..funded() },
            finishing(),
            SystemCallError::ReachLimit,
            true,
            false,
        ),
        (
            AnonymousOutcomes { pinned: Err(SystemCallError::MemoryNotAccessible), ..funded() },
            finishing(),
            SystemCallError::MemoryNotAccessible,
            true,
            true,
        ),
        (
            AnonymousOutcomes { preflight: Err(SpaceError::BadSegment), ..funded() },
            finishing(),
            SystemCallError::InternalError,
            true,
            true,
        ),
        (
            funded(),
            FinishOutcomes { funded: Err(SpaceError::NoFrame), ..finishing() },
            SystemCallError::OutOfMemory,
            true,
            true,
        ),
        (
            funded(),
            FinishOutcomes { prepared: vec![Err(MapError::Conflict)], ..finishing() },
            SystemCallError::AddressConflict,
            true,
            true,
        ),
        (
            funded(),
            FinishOutcomes { completion: Err(SystemCallError::ReachLimit), ..finishing() },
            SystemCallError::ReachLimit,
            true,
            true,
        ),
    ];
    for (o, f, error, had, roll_back) in failures {
        let mut space = BoundAddressSpace::new();
        let mut epochs = AddressSpaceEpochs::unbound(3);
        let failure = memory_calls::map_anonymous_source(
            space.standing(), &mut space, &mut epochs, &process, &process, &intent(RW), &o, &f,
        )
        .err()
        .unwrap();
        assert_eq!(failure.error, error);
        assert_eq!((failure.backing.is_some(), failure.roll_back), (had, roll_back));
        assert_eq!(space.ensure_table_transaction_available(), Ok(()));
        assert_eq!(epochs.translation, 1);
    }
    let mut space = BoundAddressSpace::new();
    let mut epochs = AddressSpaceEpochs::unbound(3);
    let process = on_hart();
    let started = memory_calls::map_anonymous_source(
        space.standing(), &mut space, &mut epochs, &process, &process, &intent(RW), &funded(), &finishing(),
    )
    .ok()
    .unwrap();
    assert!(started.owes_result);
    assert!(started.retiring.is_empty());
    let LedgerChange::Mapping(request) = started.asked else {
        panic!("anonymous memory is a mapping");
    };
    assert_eq!((request.bytes, request.guard_before, request.guard_after), (3 * PAGE, PAGE, PAGE));
    assert_eq!((request.current, request.maximum), (RW, RW));
    assert_eq!(request.placement, MapPlacement::Anywhere);
    assert_eq!(request.owner, RegionOwner::AddressSpace);
    assert_eq!(
        request.backing,
        MapBacking::Anonymous { identity: 1, class: AnonymousClass::Data }
    );
    assert_eq!(request.result, Some(0x100));
    // The harts hear of the guards, too.
    match started.synchronization {
        ShootdownSynchronization::Remote(request) => assert_eq!(
            request,
            FenceRequest {
                identity: 3,
                translation: 2,
                instruction: 0,
                start_vpn: 7,
                page_count: 5,
            }
        ),
        _ => panic!("a hart executes the process"),
    }
    assert_eq!(space.mint_backing(), Ok(2));
}

#[test]
fn process_that_changed_meanwhile_is_not_touched() {
    let mut space = BoundAddressSpace::new();
    let mut epochs = AddressSpaceEpochs::unbound(3);
    let failure = memory_calls::map_anonymous_source(
        space.standing(), &mut space, &mut epochs, &running(), &on_hart(), &intent(RW), &funded(), &finishing(),
    )
    .err()
    .unwrap();
    assert_eq!(failure.error, SystemCallError::ObjectBusy);
    assert_eq!(epochs.translation, 1);
}

fn object_handle() -> Result<ProcessHandleEntry, TableError> {
    Ok(ProcessHandleEntry {
        object: 40,
        kind: ObjectKind::MemoryObject,
        role: HandleRole::MemoryObject,
        rights: rights::MEMORY_OBJECT,
    })
}

fn viewing() -> ViewOutcomes {
    ViewOutcomes {
        authorized: Ok(()),
        spans: Some(vec![(500, 1), (800, 2)]),
        runs_room: true,
        holding: Ok(()),
        placed: Ok((layout(), 9)),
        reserved: Ok(()),
        parts_room: true,
        pinned: Ok(()),
        preflight: Ok(()),
    }
}

fn view(
    core: &mut MemoryObjectCore,
    space: &mut BoundAddressSpace,
    found: Result<ProcessHandleEntry, TableError>,
    protection: Protection,
    o: &ViewOutcomes,
    f: &FinishOutcomes,
) -> Result<StartedChange, ChangeFailure> {
    let mut epochs = AddressSpaceEpochs::unbound(3);
    let process = running();
    memory_calls::map_view(
        core,
        space,
        &mut epochs,
        &process,
        &process,
        found,
        &intent(protection),
        0,
        ObjectView { object: 40, core: 4 },
        o,
        f,
    )
}

#[test]
fn views_take_a_permit_only_if_they_are_mapped() {
    let mut core = MemoryObjectCore::new(40, 3, 1);
    let mut space = BoundAddressSpace::new();
    let denied = view(
        &mut core, &mut space, Err(TableError::RightsDenied), RW, &viewing(), &finishing(),
    );
    assert_eq!(denied.err().unwrap().error, SystemCallError::RightsDenied);
    let outside = ViewOutcomes { spans: None, ..viewing() };
    let failure = view(&mut core, &mut space, object_handle(), RW, &outside, &finishing()).err();
    assert_eq!(
        failure,
        Some(ChangeFailure { error: SystemCallError::IllegalArgument, roll_back: false })
    );
    let conflict = ViewOutcomes { preflight: Err(MapError::Conflict), ..viewing() };
    let failure = view(&mut core, &mut space, object_handle(), RW, &conflict, &finishing()).err();
    assert_eq!(
        failure,
        Some(ChangeFailure { error: SystemCallError::AddressConflict, roll_back: true })
    );
    let unfunded = FinishOutcomes { funded: Err(SpaceError::NoFrame), ..finishing() };
    let failure = view(&mut core, &mut space, object_handle(), RW, &viewing(), &unfunded).err();
    assert_eq!(
        failure,
        Some(ChangeFailure { error: SystemCallError::OutOfMemory, roll_back: true })
    );
    // Every failure gave the only permit back.
    let mapped = view(&mut core, &mut space, object_handle(), RW, &viewing(), &finishing());
    let started = mapped.ok().unwrap();
    assert!(started.owes_result);
    let LedgerChange::Mapping(request) = started.asked else {
        panic!("a view is a mapping");
    };
    let behind = MapBacking::Object { object: 40, maximum: RW, offset: 0 };
    assert_eq!(
        request,
        map_intent::map_request(&intent(RW), RegionOwner::AddressSpace, behind)
    );
    // The object's runs are entered one behind the other.
    assert_eq!(
        started.spans,
        vec![
            InstallSpan { vpn: 8, pages: 1, ppn: 500 },
            InstallSpan { vpn: 9, pages: 2, ppn: 800 },
        ]
    );
    assert_eq!(space.view_core(40), 4);
    let short = ViewOutcomes { spans: Some(vec![(500, 1)]), ..viewing() };
    let failure = view(&mut core, &mut space, object_handle(), RO, &short, &finishing()).err();
    assert_eq!(failure.unwrap().error, SystemCallError::IllegalArgument);
    let second = view(&mut core, &mut space, object_handle(), RW, &viewing(), &finishing());
    assert_eq!(second.err().unwrap().error, SystemCallError::ReachLimit);
    let reading = view(&mut core, &mut space, object_handle(), RO, &viewing(), &finishing());
    assert!(reading.is_ok());
}

fn existing() -> ExistingOutcomes {
    ExistingOutcomes {
        permits_room: true,
        reserved: Ok(()),
        parts_room: true,
        preflights: vec![Ok(()), Ok(())],
    }
}

fn part() -> RetiringFragment {
    RetiringFragment {
        range: PageRange { start: 8 * PAGE, pages: 1 },
        owner: RegionOwner::AddressSpace,
        kind: RegionKind::Mapping {
            backing: BackingView::Object { object: 40, offset: 0 },
            current: RW,
            maximum: RW,
        },
        backing_retire: BackingRetire::Keep,
    }
}

struct Caller {
    cores: Vec<MemoryObjectCore>,
    slices: Counter,
    space: BoundAddressSpace,
    epochs: AddressSpaceEpochs,
}

fn caller() -> Caller {
    let mut space = BoundAddressSpace::new();
    space.install_view_owner(40, 4);
    Caller {
        cores: vec![MemoryObjectCore::new(40, 3, 2)],
        slices: Counter { used: 0, limit: 4 },
        space,
        epochs: AddressSpaceEpochs::unbound(3),
    }
}

fn unmap(
    c: &mut Caller,
    address: u64,
    needed: usize,
    splits: usize,
    o: &ExistingOutcomes,
    f: &FinishOutcomes,
) -> Result<StartedChange, ChangeFailure> {
    let process = running();
    memory_calls::memory_unmap(
        &mut c.cores,
        &mut c.slices,
        c.space.standing(),
        &mut c.space,
        &mut c.epochs,
        &process,
        &process,
        address,
        PAGE as u64,
        Ok(vec![PermitRequirement { source: 0, count: needed }]),
        true,
        splits,
        true,
        vec![part()],
        o,
        f,
    )
}

#[test]
fn memory_is_taken_away_whole_or_not_at_all() {
    let mut c = caller();
    let odd = unmap(&mut c, 0x8001, 1, 1, &existing(), &finishing());
    assert_eq!(odd.err().unwrap().error, SystemCallError::IllegalArgument);
    let many = unmap(&mut c, 0x8000, 1, 5, &existing(), &finishing());
    assert_eq!(many.err().unwrap().error, SystemCallError::ReachLimit);
    let permits = unmap(&mut c, 0x8000, 3, 1, &existing(), &finishing());
    assert_eq!(permits.err().unwrap().error, SystemCallError::ReachLimit);
    let refused = ExistingOutcomes {
        preflights: vec![Ok(()), Err(MapError::NotMapped)],
        ..existing()
    };
    let failure = unmap(&mut c, 0x8000, 2, 1, &refused, &finishing()).err();
    assert_eq!(
        failure,
        Some(ChangeFailure { error: SystemCallError::InternalError, roll_back: true })
    );
    let unfunded = FinishOutcomes { funded: Ok(0), ..finishing() };
    let failure = unmap(&mut c, 0x8000, 2, 1, &existing(), &unfunded).err();
    assert_eq!(
        failure,
        Some(ChangeFailure { error: SystemCallError::OutOfMemory, roll_back: true })
    );
    // Permits and places are all free again.
    assert_eq!(c.slices.used, 0);
    let done = unmap(&mut c, 0x8000, 2, 3, &existing(), &finishing()).ok().unwrap();
    assert!(!done.owes_result);
    assert_eq!(
        done.asked,
        LedgerChange::Unmap {
            range: PageRange { start: 0x8000, pages: 1 },
            authority: RegionOwner::AddressSpace,
        }
    );
    assert_eq!(done.retiring, vec![ObjectView { object: 40, core: 4 }]);
    assert_eq!(c.slices.used, 3);
    assert_eq!((c.epochs.translation, c.epochs.instruction), (2, 1));
    assert!(c.cores[0].reserve_writes(1).is_err());
}

#[test]
fn harts_forget_code_only_if_code_changes() {
    let mut c = caller();
    let process = running();
    let mut protect = |protection, intents: &Vec<ProtectIntent>| {
        memory_calls::memory_protect(
            &mut c.cores,
            c.space.standing(),
            &mut c.space,
            &mut c.epochs,
            &process,
            &process,
            0x8000,
            PAGE as u64,
            protection,
            Ok(vec![]),
            true,
            intents,
            vec![],
            &existing(),
            &finishing(),
        )
    };
    assert_eq!(protect(None, &vec![]).err().unwrap().error, SystemCallError::IllegalArgument);
    assert!(protect(Some(RO), &vec![ProtectIntent { from: RW, to: RO }]).is_ok());
    let code = protect(Some(RX), &vec![ProtectIntent { from: RO, to: RX }]).ok().unwrap();
    assert_eq!(
        code.asked,
        LedgerChange::Protect {
            range: PageRange { start: 0x8000, pages: 1 },
            protection: RX,
            authority: RegionOwner::AddressSpace,
        }
    );
    assert_eq!((c.epochs.translation, c.epochs.instruction), (3, 2));
}

#[test]
fn change_that_began_meanwhile_is_not_disturbed() {
    let process = running();
    let free = BoundAddressSpace::new().standing();
    let mut space = BoundAddressSpace::new();
    let nothing: Vec<Result<(), MapError>> = vec![];
    space.prepare_user_existing_change(Ok(()), true, &nothing).unwrap();
    let busy = space.standing();
    assert!(busy.busy && !free.busy);
    let mut epochs = AddressSpaceEpochs::unbound(3);
    // Asked too late, nothing is had; asked in time, the pages come back.
    for (stood, had) in [(busy, false), (free, true)] {
        let failure = memory_calls::map_anonymous_source(
            stood, &mut space, &mut epochs, &process, &process, &intent(RW), &funded(),
            &finishing(),
        )
        .err()
        .unwrap();
        assert_eq!(failure.error, SystemCallError::ObjectBusy);
        assert_eq!((failure.backing.is_some(), failure.roll_back), (had, false));
        assert_eq!(space.standing(), busy);
    }
    // A change that ended meanwhile has used an identity up.
    let mut later = BoundAddressSpace::new();
    assert_eq!(later.mint_backing(), Ok(1));
    let started = memory_calls::map_anonymous_source(
        free, &mut later, &mut epochs, &process, &process, &intent(RW), &funded(), &finishing(),
    )
    .ok()
    .unwrap();
    let LedgerChange::Mapping(request) = started.asked else {
        panic!("anonymous memory is a mapping");
    };
    assert_eq!(
        request.backing,
        MapBacking::Anonymous { identity: 2, class: AnonymousClass::Data }
    );

    let mut c = caller();
    c.space.prepare_user_existing_change(Ok(()), true, &nothing).unwrap();
    let failure = memory_calls::memory_unmap(
        &mut c.cores,
        &mut c.slices,
        free,
        &mut c.space,
        &mut c.epochs,
        &process,
        &process,
        0x8000,
        PAGE as u64,
        Ok(vec![PermitRequirement { source: 0, count: 2 }]),
        true,
        1,
        true,
        vec![part()],
        &existing(),
        &finishing(),
    )
    .err();
    assert_eq!(
        failure,
        Some(ChangeFailure { error: SystemCallError::ObjectBusy, roll_back: false })
    );
    let failure = memory_calls::memory_protect(
        &mut c.cores,
        free,
        &mut c.space,
        &mut c.epochs,
        &process,
        &process,
        0x8000,
        PAGE as u64,
        Some(RO),
        Ok(vec![PermitRequirement { source: 0, count: 2 }]),
        true,
        &vec![],
        vec![part()],
        &existing(),
        &finishing(),
    )
    .err();
    assert_eq!(
        failure,
        Some(ChangeFailure { error: SystemCallError::ObjectBusy, roll_back: false })
    );
    // Permits and places are all free again.
    assert_eq!(c.slices.used, 0);
    assert!(c.cores[0].reserve_writes(2).is_ok());
}
