//! Tunnels and their two sides.
use kernel_task::address_space::{BoundAddressSpace, MapLayout, ObjectView, PlanFailure};
use kernel_task::backing::InstallSpan;
use kernel_task::error::SystemCallError;
use kernel_task::handle::{ProcessHandleEntry, TableError};
use kernel_task::lifecycle::Lifecycle;
use kernel_task::map_intent::{LedgerChange, LedgerRequest, MapBacking, MapPlacement};
use kernel_task::memory_object::{MemoryObjectCore, ObjectError, Protection};
use kernel_task::object::{HandleRole, ObjectKind};
use kernel_task::region::{
    BackingRetire, BackingView, ObjectMappingLease, PageRange, Region, RegionKind, RegionOwner,
    RetiringFragment,
};
use kernel_task::rights;
use kernel_task::signals;
use kernel_task::space::{ChangeError, MapError, SpaceError};
use kernel_task::shootdown::{AddressSpaceEpochs, ShootdownSynchronization};
use kernel_task::tunnel;
use kernel_task::tunnel::{Connection, DetachedClose, Endpoint, Invitation, LeaseRetire, PeerNotice};
use kernel_task::tunnel_calls;
use kernel_task::tunnel_calls::{CreatedTunnel, SideOutcomes, TunnelFailure, UnmapOutcomes};

fn lease(id: u64) -> ObjectMappingLease {
    ObjectMappingLease {
        lease: id,
        region: id,
        range: PageRange { start: 0x8000, pages: 1 },
        object: 40,
        object_offset: 0,
        protection: Protection::ReadWrite,
    }
}

fn retired(lease: ObjectMappingLease) -> RetiringFragment {
    RetiringFragment {
        range: lease.range,
        owner: RegionOwner::Lease(lease.lease),
        kind: RegionKind::Mapping {
            backing: BackingView::Object { object: lease.object, offset: lease.object_offset },
            current: lease.protection,
            maximum: lease.protection,
        },
        backing_retire: BackingRetire::Keep,
    }
}

fn endpoint_handle() -> Result<ProcessHandleEntry, TableError> {
    Ok(ProcessHandleEntry {
        object: 5,
        kind: ObjectKind::TunnelEndpoint,
        role: HandleRole::TunnelEndpoint,
        rights: rights::SIGNAL,
    })
}

fn connected() -> (Connection, Endpoint, Endpoint) {
    let mut connection = Connection::new();
    connection.open_sides(5, 6, lease(1));
    let mut invitation = Invitation::new(6, 1);
    assert_eq!(connection.check_invitation(&invitation), Ok(()));
    connection.accept(&mut invitation, 7, lease(2));
    assert!(connection.check_invitation(&invitation).is_err());
    (connection, Endpoint::new(5, 0), Endpoint::new(7, 1))
}

#[test]
fn data_is_announced_and_acknowledged() {
    let (connection, a, b) = connected();
    let mut peer = Some(b);
    assert_eq!(tunnel::notify(endpoint_handle(), &connection, &a, &mut peer), Ok(()));
    let mut b = peer.unwrap();
    assert_ne!(b.signals() & signals::DATA, 0);
    assert_eq!(tunnel::acknowledge_data(endpoint_handle(), &mut b), Ok(()));
    assert_eq!(b.signals() & signals::DATA, 0);
    assert_eq!(
        tunnel::notify(Err(TableError::RightsDenied), &connection, &a, &mut None),
        Err(SystemCallError::RightsDenied)
    );
}

#[test]
fn peer_sees_the_close() {
    let (mut connection, mut a, b) = connected();
    assert_eq!(connection.check_close(&a), Ok(lease(1)));
    let (given, notice) = connection.commit_side_close(&mut a);
    assert_eq!((given, notice), (lease(1), Some(PeerNotice::Endpoint(7))));
    assert!(connection.check_close(&a).is_err());
    assert!(b.notify_peer(&connection).is_err());
    let mut retire = LeaseRetire::new(given);
    retire.install_notice(notice);
    retire.retire_fragment(retired(given));
    let mut peer = Some(b);
    retire.finish(&mut a, &mut peer, &mut None);
    assert_ne!(a.signals() & signals::CLOSED, 0);
    assert_ne!(peer.unwrap().signals() & signals::PEER_CLOSED, 0);
}

#[test]
fn invitation_that_is_given_up_closes_its_side() {
    let mut connection = Connection::new();
    connection.open_sides(5, 6, lease(1));
    let mut invitation = Invitation::new(6, 1);
    let a = Endpoint::new(5, 0);
    assert!(a.notify_peer(&connection).is_err());
    assert_eq!(invitation.abandon(&mut connection), Some(PeerNotice::Endpoint(5)));
    assert!(invitation.closed);
    assert_eq!(invitation.abandon(&mut connection), None);
    let mut other = Invitation::new(8, 1);
    other.mark_closed();
    assert!(connection.check_invitation(&other).is_err());
}

#[test]
fn detached_close_goes_on_until_it_is_done() {
    let (mut connection, mut a, _) = connected();
    let wait = tunnel::close_detached(&mut a, &mut connection, false, Ok(()), true);
    assert_eq!(wait, DetachedClose::Wait);
    let busy = tunnel::close_detached(&mut a, &mut connection, true, Err(SpaceError::Busy), true);
    assert_eq!(busy, DetachedClose::Wait);
    let unfunded = tunnel::close_detached(&mut a, &mut connection, true, Ok(()), false);
    assert_eq!(unfunded, DetachedClose::RollBack);
    let advance = tunnel::close_detached(&mut a, &mut connection, true, Ok(()), true);
    assert_eq!(advance, DetachedClose::Advance);
    assert!(!tunnel::detached_advanced(&mut a, false));
}

#[test]
fn entries_carry_what_a_side_needs() {
    let (endpoint, invitation) = tunnel::create_entries(5, 6, true).unwrap();
    assert_eq!((endpoint.object, endpoint.role), (5, HandleRole::TunnelEndpoint));
    assert_eq!((invitation.object, invitation.role), (6, HandleRole::TunnelInvitation));
    assert_eq!(endpoint.rights & rights::TRANSIT, 0);
    assert_ne!(invitation.rights & rights::TRANSIT, 0);
    assert_eq!(
        tunnel::create_entries(5, 6, false).err(),
        Some(SystemCallError::OutOfMemory)
    );
    assert_eq!(tunnel::make_endpoint_entry(5).unwrap().kind, ObjectKind::TunnelEndpoint);
}

#[test]
fn sides_are_mapped_to_read_and_write() {
    let mut space = BoundAddressSpace::new();
    let range = PageRange { start: 0x8000, pages: 1 };
    let placed = Ok((MapLayout { usable: range, reservation: range }, 9));
    let spans = vec![(77, 1)];
    let planned = tunnel::plan_side_mapping(
        &mut space, 40, &spans, 0x8000, true, Ok(()), placed, Ok(()), true, Ok(()),
    );
    let plan = planned.ok().unwrap();
    assert_eq!(plan.request, side_request());
    assert_eq!(plan.spans, vec![InstallSpan { vpn: 8, pages: 1, ppn: 77 }]);
    let lease = plan.lease.unwrap();
    assert_eq!((lease.lease, lease.region, lease.object), (1, 9, 40));
    assert_eq!(lease.protection, Protection::ReadWrite);
    let second = tunnel::plan_side_mapping(
        &mut space, 40, &spans, 0x8000, true, Ok(()), placed, Ok(()), true, Ok(()),
    );
    assert!(matches!(second, Err(PlanFailure { error: SpaceError::Busy, roll_back: false })));
    space.clear_table_transaction();
    let conflict = tunnel::plan_side_mapping(
        &mut space,
        40,
        &spans,
        0x8000,
        true,
        Ok(()),
        Err(ChangeError::Conflict),
        Ok(()),
        true,
        Ok(()),
    );
    assert!(matches!(
        conflict,
        Err(PlanFailure { error: SpaceError::Conflict, roll_back: false })
    ));
    let full = tunnel::plan_side_mapping(
        &mut space,
        40,
        &spans,
        0x8000,
        true,
        Err(SpaceError::ReachLimit),
        placed,
        Ok(()),
        true,
        Ok(()),
    );
    assert!(matches!(full, Err(PlanFailure { error: SpaceError::ReachLimit, .. })));
}

fn side_request() -> LedgerRequest {
    LedgerRequest {
        bytes: 4096,
        guard_before: 0,
        guard_after: 0,
        placement: MapPlacement::FixedEmpty { usable_start: 0x8000 },
        current: Protection::ReadWrite,
        maximum: Protection::ReadWrite,
        owner: RegionOwner::Lease(1),
        backing: MapBacking::Object { object: 40, maximum: Protection::ReadWrite, offset: 0 },
        result: None,
    }
}

fn running() -> Lifecycle {
    let mut lifecycle = Lifecycle::building(8);
    lifecycle.attach_member(Ok(100), true).unwrap();
    assert!(lifecycle.enter_building_op());
    let mut out = vec![];
    lifecycle.begin_running(1, &mut out).unwrap();
    lifecycle
}

fn going_well() -> SideOutcomes {
    let range = PageRange { start: 0x8000, pages: 1 };
    SideOutcomes {
        authorized: Ok(()),
        frame: 77,
        runs_room: true,
        holding: Ok(()),
        validated: Ok((MapLayout { usable: range, reservation: range }, 9)),
        reserved: Ok(()),
        parts_room: true,
        preflight: Ok(()),
        funded: Ok(()),
        change_room: true,
        prepared: Ok(()),
        completion: Ok(()),
        harts: Ok(()),
        delivered: Ok(()),
    }
}

struct Caller {
    core: MemoryObjectCore,
    space: BoundAddressSpace,
    epochs: AddressSpaceEpochs,
    lifecycle: Lifecycle,
}

fn caller() -> Caller {
    Caller {
        core: MemoryObjectCore::new(40, 1, 2),
        space: BoundAddressSpace::new(),
        epochs: AddressSpaceEpochs::unbound(3),
        lifecycle: running(),
    }
}

const VIEW: ObjectView = ObjectView { object: 40, core: 4 };

fn try_create(
    c: &mut Caller,
    connection: &mut Connection,
    output: Result<(), SystemCallError>,
    o: &SideOutcomes,
) -> Result<CreatedTunnel, TunnelFailure> {
    tunnel_calls::create(
        connection,
        &mut c.core,
        &mut c.space,
        &mut c.epochs,
        &c.lifecycle,
        &c.lifecycle,
        Ok(()),
        5,
        6,
        true,
        Ok(()),
        output,
        VIEW,
        0x8000,
        o,
    )
}

#[test]
fn failed_creation_leaves_nothing() {
    let well = going_well();
    let unwritable = SystemCallError::MemoryNotAccessible;
    let failures = [
        (
            SideOutcomes { authorized: Err(ObjectError::PermitDenied), ..well },
            SystemCallError::ObjectBusy,
        ),
        (SideOutcomes { runs_room: false, ..well }, SystemCallError::OutOfMemory),
        (
            SideOutcomes { holding: Err(SpaceError::ReachLimit), ..well },
            SystemCallError::ReachLimit,
        ),
        (
            SideOutcomes { validated: Err(ChangeError::Conflict), ..well },
            SystemCallError::AddressConflict,
        ),
        (
            SideOutcomes { reserved: Err(ChangeError::Busy), ..well },
            SystemCallError::ObjectBusy,
        ),
        (SideOutcomes { parts_room: false, ..well }, SystemCallError::OutOfMemory),
        (
            SideOutcomes { preflight: Err(MapError::Conflict), ..well },
            SystemCallError::AddressConflict,
        ),
        (
            SideOutcomes { funded: Err(SpaceError::QuotaExceeded), ..well },
            SystemCallError::QuotaExceeded,
        ),
        (SideOutcomes { change_room: false, ..well }, SystemCallError::OutOfMemory),
        (
            SideOutcomes { prepared: Err(MapError::FrameExhausted), ..well },
            SystemCallError::OutOfMemory,
        ),
        (
            SideOutcomes { completion: Err(SystemCallError::ReachLimit), ..well },
            SystemCallError::ReachLimit,
        ),
        (SideOutcomes { delivered: Err(unwritable), ..well }, unwritable),
    ];
    for (outcomes, error) in failures {
        let mut c = caller();
        let mut connection = Connection::new();
        let failure = try_create(&mut c, &mut connection, Ok(()), &outcomes).err().unwrap();
        assert_eq!((failure.error, failure.give_back), (error, true));
        let in_ledger = !outcomes.parts_room
            || outcomes.preflight.is_err()
            || outcomes.funded.is_err()
            || !outcomes.change_room
            || outcomes.prepared.is_err()
            || outcomes.completion.is_err()
            || outcomes.delivered.is_err();
        assert_eq!(failure.roll_back, in_ledger);
        // The object has its permit back, and the address space is free: the next try works.
        assert_eq!(c.epochs.translation, 1);
        assert!(c.core.reserve_writes(2).is_ok());
        c.core.cancel_writes(2);
        assert!(try_create(&mut c, &mut connection, Ok(()), &well).is_ok());
    }
    let mut c = caller();
    let mut connection = Connection::new();
    let failure = try_create(&mut c, &mut connection, Err(unwritable), &well).err();
    assert_eq!(failure, Some(TunnelFailure { error: unwritable, give_back: true, roll_back: false }));
}

#[test]
fn tunnel_is_created_taken_and_closed() {
    let mut a = caller();
    let mut b = caller();
    let mut connection = Connection::new();
    let created = try_create(&mut a, &mut connection, Ok(()), &going_well()).ok().unwrap();
    assert_eq!((created.endpoint.object, created.invitation.object), (5, 6));
    assert_eq!(created.request, side_request());
    assert_eq!(created.span, InstallSpan { vpn: 8, pages: 1, ppn: 77 });
    assert!(matches!(created.synchronization, ShootdownSynchronization::Immediate));
    assert_eq!(a.epochs.translation, 2);
    assert_eq!(a.space.view_core(40), 4);
    assert!(a.core.reserve_writes(2).is_err());

    let mut invitation = Invitation::new(6, 1);
    let found = Ok(ProcessHandleEntry {
        object: 6,
        kind: ObjectKind::TunnelInvitation,
        role: HandleRole::TunnelInvitation,
        rights: rights::MAP,
    });
    let mut attach = |found, slots| {
        tunnel_calls::attach(
            &mut connection,
            &mut invitation,
            &mut b.core,
            &mut b.space,
            &mut b.epochs,
            &b.lifecycle,
            &b.lifecycle,
            found,
            Ok(()),
            7,
            true,
            slots,
            Ok(()),
            VIEW,
            0x8000,
            &going_well(),
        )
    };
    assert_eq!(
        attach(endpoint_handle(), Ok(())).err(),
        Some(TunnelFailure { error: SystemCallError::WrongObjectType, give_back: false, roll_back: false })
    );
    assert_eq!(
        attach(found, Err(TableError::ReachLimit)).err(),
        Some(TunnelFailure { error: SystemCallError::ReachLimit, give_back: false, roll_back: false })
    );
    let attached = attach(found, Ok(())).ok().unwrap();
    assert_eq!((attached.endpoint.object, attached.request), (7, side_request()));
    // The invitation is used up.
    assert_eq!(
        attach(found, Ok(())).err(),
        Some(TunnelFailure { error: SystemCallError::ObjectClosed, give_back: true, roll_back: false })
    );

    let lease = connection.check_close(&Endpoint::new(5, 0)).unwrap();
    let shown = Region {
        key: lease.region,
        range: lease.range,
        owner: RegionOwner::Lease(lease.lease),
        kind: RegionKind::Mapping {
            backing: BackingView::Object { object: lease.object, offset: lease.object_offset },
            current: lease.protection,
            maximum: lease.protection,
        },
    };
    let mut side = Endpoint::new(5, 0);
    let well = UnmapOutcomes {
        validated: Ok(()),
        reserved: Ok(()),
        parts_room: true,
        preflight: Ok(()),
        funded: Ok(()),
        change_room: true,
        prepared: Ok(()),
        retire_room: true,
        completion: Ok(()),
        harts: Ok(()),
    };
    let mut close = |found, regions: &Vec<Region>, o: &UnmapOutcomes| {
        tunnel_calls::close_handle(
            &mut connection,
            &mut side,
            &mut a.space,
            &mut a.epochs,
            &a.lifecycle,
            &a.lifecycle,
            found,
            regions,
            &vec![retired(lease)],
            o,
        )
    };
    let regions = vec![shown];
    assert_eq!(
        close(Err(TableError::StaleHandle), &regions, &well).err().map(|f| f.error),
        Some(SystemCallError::StaleHandle)
    );
    assert_eq!(
        close(endpoint_handle(), &vec![], &well).err().map(|f| f.error),
        Some(SystemCallError::IllegalArgument)
    );
    let no_room = UnmapOutcomes { retire_room: false, ..well };
    assert_eq!(
        close(endpoint_handle(), &regions, &no_room).err().map(|f| f.error),
        Some(SystemCallError::OutOfMemory)
    );
    let unfunded = UnmapOutcomes { funded: Err(SpaceError::NoFrame), ..well };
    assert_eq!(
        close(endpoint_handle(), &regions, &unfunded).err().map(|f| f.error),
        Some(SystemCallError::OutOfMemory)
    );
    let closed = close(endpoint_handle(), &regions, &well).ok().unwrap();
    assert_eq!(closed.retire.notice, Some(Some(PeerNotice::Endpoint(7))));
    assert_eq!(closed.retiring, vec![VIEW]);
    assert_eq!(
        close(endpoint_handle(), &regions, &well).err().map(|f| f.error),
        Some(SystemCallError::ObjectClosed)
    );
}
