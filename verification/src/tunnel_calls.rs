//! Creating a tunnel, taking its other side, and closing a side. Each happens whole or not
//! at all.
use vstd::prelude::*;

use crate::address_space;
use crate::address_space::{BoundAddressSpace, MapLayout, ObjectView, SpaceView};
use crate::backing;
use crate::backing::InstallSpan;
use crate::error::SystemCallError;
use crate::handle;
use crate::handle::{ProcessHandleEntry, TableError};
use crate::lifecycle::{Lifecycle, LifecycleView};
use crate::map_intent::{LedgerChange, LedgerRequest, MapBacking, MapPlacement};
use crate::memory_calls::ChangeFailure;
use crate::memory_object;
use crate::memory_object::{CoreView, MemoryObjectCore, ObjectError, Protection};
use crate::object::{HandleRole, Koid, ObjectKind};
use crate::process::PAGE_SIZE;
use crate::region::{ObjectMappingLease, Region, RegionOwner, RetiringFragment};
use crate::running_change;
use crate::shootdown;
use crate::shootdown::{
    AddressSpaceEpochs, PreparedShootdown, ReserveError, ShootdownSynchronization,
};
use crate::space;
use crate::space::{ChangeError, MapError, SpaceError};
use crate::tunnel;
use crate::tunnel::{
    Connection, ConnectionView, Endpoint, EndpointView, Invitation, LeaseRetire,
};

verus! {

/// What a side's view of the shared object met with on its way. Only what is reached counts.
#[derive(Clone, Copy, Debug)]
pub struct SideOutcomes {
    /// Whether the object admits the view.
    pub authorized: Result<(), ObjectError>,
    /// The frame of the object's page.
    pub frame: usize,
    /// There is memory to list the object's runs.
    pub runs_room: bool,
    /// Whether the address space may hold the object.
    pub holding: Result<(), SpaceError>,
    /// Where the ledger puts the view, and as which region.
    pub validated: Result<(MapLayout, u64), ChangeError>,
    pub reserved: Result<(), ChangeError>,
    pub parts_room: bool,
    /// What the page table says of it.
    pub preflight: Result<(), MapError>,
    /// What funding the tables gave.
    pub funded: Result<(), SpaceError>,
    pub change_room: bool,
    pub prepared: Result<(), MapError>,
    /// What preparing the end of the change gave.
    pub completion: Result<(), SystemCallError>,
    /// What reserving calls to the harts gave that execute the process.
    pub harts: Result<(), ReserveError>,
    /// What writing the answer to the caller gave.
    pub delivered: Result<(), SystemCallError>,
}

/// The plan gets as far as a lease of its own.
pub open spec fn leased(space: SpaceView, o: SideOutcomes) -> bool {
    o.runs_room && o.holding is Ok && !space.busy && SpaceView::mintable(space.next_lease)
}

/// Why the view cannot be planned.
pub open spec fn plan_refusal(space: SpaceView, o: SideOutcomes) -> Option<SpaceError> {
    if !o.runs_room {
        Some(SpaceError::NoFrame)
    } else if o.holding is Err {
        Some(o.holding->Err_0)
    } else if space.busy {
        Some(SpaceError::Busy)
    } else if !SpaceView::mintable(space.next_lease) {
        Some(SpaceError::NoFrame)
    } else if o.validated is Err {
        Some(space::change_refusal(o.validated->Err_0))
    } else if o.reserved is Err {
        Some(space::change_refusal(o.reserved->Err_0))
    } else if !o.parts_room {
        Some(SpaceError::NoFrame)
    } else if o.preflight is Err {
        Some(address_space::table_refusal(o.preflight->Err_0))
    } else {
        None
    }
}

/// The ledger has taken the view.
pub open spec fn ledger_holds(core: CoreView, space: SpaceView, o: SideOutcomes) -> bool {
    write_refusal(core, o.authorized) is None && leased(space, o) && o.validated is Ok
        && o.reserved is Ok
}

/// Why the object grants no writable view.
pub open spec fn write_refusal(
    core: CoreView,
    authorized: Result<(), ObjectError>,
) -> Option<SystemCallError> {
    if authorized is Err {
        Some(memory_object::object_reported(authorized->Err_0))
    } else if !(core.state is Mutable) {
        Some(SystemCallError::ObjectBusy)
    } else if core.permits >= core.permit_limit {
        Some(SystemCallError::ReachLimit)
    } else {
        None
    }
}

/// Why a change that is prepared cannot be committed.
pub open spec fn commit_refusal(
    epochs: AddressSpaceEpochs,
    before: Lifecycle,
    now: LifecycleView,
    completion: Result<(), SystemCallError>,
    harts: Result<(), ReserveError>,
    delivered: Result<(), SystemCallError>,
) -> Option<SystemCallError> {
    let prepared = running_change::shootdown_for(before, harts);
    let still = shootdown::current(now, prepared->Ok_0.execution);
    if completion is Ok && prepared is Ok && delivered is Err {
        Some(delivered->Err_0)
    } else {
        running_change::start_refusal(completion, prepared, epochs.spent(false), still)
    }
}

/// Why a side's view cannot be mapped.
pub open spec fn map_refusal(
    core: CoreView,
    space: SpaceView,
    epochs: AddressSpaceEpochs,
    before: Lifecycle,
    now: LifecycleView,
    o: SideOutcomes,
) -> Option<SystemCallError> {
    if write_refusal(core, o.authorized) is Some {
        write_refusal(core, o.authorized)
    } else if plan_refusal(space, o) is Some {
        Some(space::space_reported(plan_refusal(space, o)->0))
    } else if o.funded is Err {
        Some(space::space_reported(o.funded->Err_0))
    } else if !o.change_room {
        Some(SystemCallError::OutOfMemory)
    } else if o.prepared is Err {
        Some(space::space_reported(address_space::table_refusal(o.prepared->Err_0)))
    } else {
        commit_refusal(epochs, before, now, o.completion, o.harts, o.delivered)
    }
}

/// The address space after a failure: a lease that was handed out is used up, and nothing
/// else has changed.
pub open spec fn after_failure(core: CoreView, space: SpaceView, o: SideOutcomes) -> SpaceView {
    if write_refusal(core, o.authorized) is None && leased(space, o) {
        space.lease_minted()
    } else {
        space
    }
}

/// Commits what is prepared, or says why not: the completion first, then the harts, then the
/// answer, then the commit itself.
fn commit_prepared(
    epochs: &mut AddressSpaceEpochs,
    before: &Lifecycle,
    now: &Lifecycle,
    completion: Result<(), SystemCallError>,
    harts: Result<(), ReserveError>,
    delivered: Result<(), SystemCallError>,
    vpn: usize,
    pages: usize,
) -> (r: Result<ShootdownSynchronization, SystemCallError>)
    requires
        pages != 0,
    ensures
        ({
            let refusal = commit_refusal(
                *old(epochs),
                *before,
                now@,
                completion,
                harts,
                delivered,
            );
            match r {
                Err(error) => refusal == Some(error) && *final(epochs) == *old(epochs),
                Ok(synchronization) => refusal is None && *final(epochs) == old(epochs).changed(
                    false,
                ) && synchronization == running_change::to_tell(*old(epochs), *before, vpn, pages, false),
            }
        }),
{
    match completion {
        Err(error) => {
            return Err(error);
        },
        Ok(_) => {},
    }
    let prepared: PreparedShootdown = match shootdown::prepare_shootdown(before, harts) {
        Err(error) => {
            return Err(shootdown::map_shootdown_error(error));
        },
        Ok(prepared) => prepared,
    };
    match delivered {
        Err(error) => {
            return Err(error);
        },
        Ok(_) => {},
    }
    match epochs.commit_shootdown(now, prepared, vpn, pages, false) {
        Err(_) => Err(SystemCallError::ObjectBusy),
        Ok(synchronization) => Ok(synchronization),
    }
}

/// A side's view that is mapped.
#[derive(Clone, Copy, Debug)]
pub struct MappedSide {
    /// What the ledger was asked for.
    pub request: LedgerRequest,
    /// Where the page is entered in the page table.
    pub span: InstallSpan,
    pub lease: ObjectMappingLease,
    pub synchronization: ShootdownSynchronization,
}

/// What the ledger is asked for on behalf of a side: one page at `va`, to read and to write,
/// which only the holder of the lease can take away again.
pub open spec fn side_request(va: usize, object: u64, lease: u64) -> LedgerRequest {
    LedgerRequest {
        bytes: PAGE_SIZE,
        guard_before: 0,
        guard_after: 0,
        placement: MapPlacement::FixedEmpty { usable_start: va },
        current: Protection::ReadWrite,
        maximum: Protection::ReadWrite,
        owner: RegionOwner::Lease(lease),
        backing: MapBacking::Object { object, maximum: Protection::ReadWrite, offset: 0 },
        result: None,
    }
}

/// Where the page of a side is entered in the page table.
pub open spec fn side_span(o: SideOutcomes) -> InstallSpan {
    InstallSpan {
        vpn: ((o.validated->Ok_0).0.usable.start / PAGE_SIZE) as usize,
        pages: 1,
        ppn: o.frame,
    }
}

/// Maps the view of a side at `va`, one page. `before` is the process when harts are
/// reserved, `now` when the change is committed. If anything fails the object has its permit
/// back.
pub fn map_side(
    core: &mut MemoryObjectCore,
    space: &mut BoundAddressSpace,
    epochs: &mut AddressSpaceEpochs,
    before: &Lifecycle,
    now: &Lifecycle,
    view: ObjectView,
    va: usize,
    o: &SideOutcomes,
) -> (r: Result<MappedSide, ChangeFailure>)
    requires
        old(core).wf(),
        old(space).wf(),
    ensures
        final(core).wf(),
        final(space).wf(),
        ({
            let refusal = map_refusal(
                old(core)@,
                old(space)@,
                *old(epochs),
                *before,
                now@,
                *o,
            );
            match r {
                Err(failure) => {
                    &&& refusal == Some(failure.error)
                    &&& failure.roll_back == ledger_holds(old(core)@, old(space)@, *o)
                    &&& final(core)@ == old(core)@
                    &&& final(space)@ == after_failure(old(core)@, old(space)@, *o)
                    &&& *final(epochs) == *old(epochs)
                },
                Ok(mapped) => {
                    &&& refusal is None
                    &&& final(core)@ == (CoreView {
                        permits: (old(core)@.permits + 1) as usize,
                        ..old(core)@
                    })
                    &&& running_change::view_mapped(old(space)@, final(space)@, view)
                    &&& *final(epochs) == old(epochs).changed(false)
                    &&& mapped.synchronization == running_change::to_tell(
                        *old(epochs),
                        *before,
                        (va / PAGE_SIZE) as usize,
                        1,
                        false,
                    )
                    &&& mapped.request == side_request(va, view.object, old(space)@.next_lease)
                    &&& mapped.span == side_span(*o)
                    &&& mapped.lease == (ObjectMappingLease {
                        lease: old(space)@.next_lease,
                        region: (o.validated->Ok_0).1,
                        range: (o.validated->Ok_0).0.usable,
                        object: view.object,
                        object_offset: 0,
                        protection: Protection::ReadWrite,
                    })
                },
            }
        }),
{
    let permits: usize = match core.authorize(Protection::ReadWrite, o.authorized) {
        Err(error) => {
            return Err(ChangeFailure { error, roll_back: false });
        },
        Ok(permits) => permits,
    };
    let mut spans: Vec<(usize, usize)> = Vec::new();
    spans.push((o.frame, 1));
    proof {
        reveal_with_fuel(backing::total_pages, 2);
    }
    let plan = match tunnel::plan_side_mapping(
        space,
        view.object,
        &spans,
        va,
        o.runs_room,
        o.holding,
        o.validated,
        o.reserved,
        o.parts_room,
        o.preflight,
    ) {
        Err(failure) => {
            core.cancel_writes(permits);
            assert(core@ =~= old(core)@);
            return Err(
                ChangeFailure {
                    error: space::map_space_error(failure.error),
                    roll_back: failure.roll_back,
                },
            );
        },
        Ok(plan) => plan,
    };
    assert(plan.spans@ =~= seq![side_span(*o)]) by {
        assert(spans@.take(0).len() == 0);
    }
    match o.funded {
        Err(error) => {
            space.clear_table_transaction();
            core.cancel_writes(permits);
            assert(core@ =~= old(core)@);
            return Err(ChangeFailure { error: space::map_space_error(error), roll_back: true });
        },
        Ok(_) => {},
    }
    let mut parts: Vec<Result<(), MapError>> = Vec::new();
    parts.push(o.prepared);
    proof {
        reveal_with_fuel(address_space::first_refusal, 3);
    }
    match space.complete_memory_change(1, 1, o.change_room, &parts) {
        Err(error) => {
            core.cancel_writes(permits);
            assert(core@ =~= old(core)@);
            return Err(ChangeFailure { error: space::map_space_error(error), roll_back: true });
        },
        Ok(_) => {},
    }
    let synchronization = match commit_prepared(
        epochs,
        before,
        now,
        o.completion,
        o.harts,
        o.delivered,
        va / PAGE_SIZE,
        1,
    ) {
        Err(error) => {
            space.clear_table_transaction();
            core.cancel_writes(permits);
            assert(core@ =~= old(core)@);
            return Err(ChangeFailure { error, roll_back: true });
        },
        Ok(synchronization) => synchronization,
    };
    let nothing: Vec<RetiringFragment> = Vec::new();
    space.commit_change(None, Some(view), None, &nothing);
    Ok(
        MappedSide {
            request: plan.request,
            span: plan.spans[0],
            lease: plan.lease.unwrap(),
            synchronization,
        },
    )
}

/// A tunnel that was not created, or a side that was not taken.
#[derive(Clone, Copy, Debug, PartialEq, Eq, Structural)]
pub struct TunnelFailure {
    pub error: SystemCallError,
    /// Slots in the caller's handle table are to be given back.
    pub give_back: bool,
    /// The reservation in the ledger is to be rolled back.
    pub roll_back: bool,
}

/// A tunnel that is created.
#[derive(Clone, Copy, Debug)]
pub struct CreatedTunnel {
    /// The entries to publish: the endpoint and the invitation.
    pub endpoint: ProcessHandleEntry,
    pub invitation: ProcessHandleEntry,
    /// What the ledger was asked for, and where the page is entered in the page table.
    pub request: LedgerRequest,
    pub span: InstallSpan,
    pub synchronization: ShootdownSynchronization,
}

/// Why a call that publishes handles fails before its slots are reserved.
pub open spec fn slots_refusal(
    made: Result<(), SystemCallError>,
    entries_room: bool,
    slots: Result<(), TableError>,
) -> Option<SystemCallError> {
    if made is Err {
        Some(made->Err_0)
    } else if !entries_room {
        Some(SystemCallError::OutOfMemory)
    } else if slots is Err {
        Some(handle::reported(slots->Err_0))
    } else {
        None
    }
}

/// Creates a tunnel: the first side is alive with its view at `va`, the other is invited.
/// `made` is what making the connection and its two objects gave, `entries_room` whether
/// there is memory for their entries, `slots` what reserving slots gave, `output` whether the
/// answer can be written. The other arguments are those of [`map_side`].
pub fn create(
    connection: &mut Connection,
    core: &mut MemoryObjectCore,
    space: &mut BoundAddressSpace,
    epochs: &mut AddressSpaceEpochs,
    before: &Lifecycle,
    now: &Lifecycle,
    made: Result<(), SystemCallError>,
    endpoint: Koid,
    invitation: Koid,
    entries_room: bool,
    slots: Result<(), TableError>,
    output: Result<(), SystemCallError>,
    view: ObjectView,
    va: usize,
    o: &SideOutcomes,
) -> (r: Result<CreatedTunnel, TunnelFailure>)
    requires
        old(connection).wf(),
        old(connection)@.is_new(),
        old(core).wf(),
        old(space).wf(),
    ensures
        final(connection).wf(),
        final(core).wf(),
        final(space).wf(),
        ({
            let early = slots_refusal(made, entries_room, slots);
            let refusal = map_refusal(
                old(core)@,
                old(space)@,
                *old(epochs),
                *before,
                now@,
                *o,
            );
            match r {
                Err(failure) => {
                    &&& failure == if early is Some {
                        TunnelFailure { error: early->0, give_back: false, roll_back: false }
                    } else if output is Err {
                        TunnelFailure { error: output->Err_0, give_back: true, roll_back: false }
                    } else {
                        TunnelFailure {
                            error: refusal->0,
                            give_back: true,
                            roll_back: ledger_holds(old(core)@, old(space)@, *o),
                        }
                    }
                    &&& early is Some || output is Err || refusal is Some
                    &&& final(connection)@ == old(connection)@
                    &&& final(core)@ == old(core)@
                    &&& *final(epochs) == *old(epochs)
                    &&& final(space)@ == if early is None && output is Ok {
                        after_failure(old(core)@, old(space)@, *o)
                    } else {
                        old(space)@
                    }
                },
                Ok(created) => {
                    &&& early is None && output is Ok && refusal is None
                    &&& created.endpoint == tunnel::endpoint_entry(endpoint)
                    &&& created.invitation == tunnel::invitation_entry(invitation)
                    &&& created.request == side_request(va, view.object, old(space)@.next_lease)
                    &&& created.span == side_span(*o)
                    &&& created.synchronization == running_change::to_tell(
                        *old(epochs),
                        *before,
                        (va / PAGE_SIZE) as usize,
                        1,
                        false,
                    )
                    &&& final(connection)@ == ConnectionView::opened(
                        endpoint,
                        invitation,
                        side_lease(old(space)@, view, *o),
                    )
                    &&& final(core)@ == (CoreView {
                        permits: (old(core)@.permits + 1) as usize,
                        ..old(core)@
                    })
                    &&& running_change::view_mapped(old(space)@, final(space)@, view)
                    &&& *final(epochs) == old(epochs).changed(false)
                },
            }
        }),
{
    match made {
        Err(error) => {
            return Err(TunnelFailure { error, give_back: false, roll_back: false });
        },
        Ok(_) => {},
    }
    let (first, second) = match tunnel::create_entries(endpoint, invitation, entries_room) {
        Err(error) => {
            return Err(TunnelFailure { error, give_back: false, roll_back: false });
        },
        Ok(entries) => entries,
    };
    match slots {
        Err(error) => {
            return Err(
                TunnelFailure {
                    error: handle::map_error(error),
                    give_back: false,
                    roll_back: false,
                },
            );
        },
        Ok(_) => {},
    }
    match output {
        Err(error) => {
            return Err(TunnelFailure { error, give_back: true, roll_back: false });
        },
        Ok(_) => {},
    }
    match map_side(core, space, epochs, before, now, view, va, o) {
        Err(failure) => Err(
            TunnelFailure {
                error: failure.error,
                give_back: true,
                roll_back: failure.roll_back,
            },
        ),
        Ok(mapped) => {
            connection.open_sides(endpoint, invitation, mapped.lease);
            Ok(
                CreatedTunnel {
                    endpoint: first,
                    invitation: second,
                    request: mapped.request,
                    span: mapped.span,
                    synchronization: mapped.synchronization,
                },
            )
        },
    }
}

/// The lease that a side's view is mapped with.
pub open spec fn side_lease(
    space: SpaceView,
    view: ObjectView,
    o: SideOutcomes,
) -> ObjectMappingLease {
    ObjectMappingLease {
        lease: space.next_lease,
        region: (o.validated->Ok_0).1,
        range: (o.validated->Ok_0).0.usable,
        object: view.object,
        object_offset: 0,
        protection: Protection::ReadWrite,
    }
}

/// A side that was taken.
#[derive(Clone, Copy, Debug)]
pub struct AttachedSide {
    /// The entry to publish, in place of the invitation's.
    pub endpoint: ProcessHandleEntry,
    /// What the ledger was asked for, and where the page is entered in the page table.
    pub request: LedgerRequest,
    pub span: InstallSpan,
    pub synchronization: ShootdownSynchronization,
}

/// Why an attach fails before its slot is reserved.
pub open spec fn attach_refusal(
    found: Result<ProcessHandleEntry, TableError>,
    made: Result<(), SystemCallError>,
    entries_room: bool,
    slots: Result<(), TableError>,
) -> Option<SystemCallError> {
    match handle::resolve_result(
        found,
        ObjectKind::TunnelInvitation,
        HandleRole::TunnelInvitation,
    ) {
        Err(error) => Some(error),
        Ok(_) => slots_refusal(made, entries_room, slots),
    }
}

/// Takes the side that an invitation is for, with a view at `va`. The invitation is used up
/// with it. `found` is what the lookup of the invitation with the right to map gave, `made`
/// what making the endpoint gave; the other arguments are those of [`create`].
pub fn attach(
    connection: &mut Connection,
    invitation: &mut Invitation,
    core: &mut MemoryObjectCore,
    space: &mut BoundAddressSpace,
    epochs: &mut AddressSpaceEpochs,
    before: &Lifecycle,
    now: &Lifecycle,
    found: Result<ProcessHandleEntry, TableError>,
    made: Result<(), SystemCallError>,
    endpoint: Koid,
    entries_room: bool,
    slots: Result<(), TableError>,
    output: Result<(), SystemCallError>,
    view: ObjectView,
    va: usize,
    o: &SideOutcomes,
) -> (r: Result<AttachedSide, TunnelFailure>)
    requires
        old(connection).wf(),
        old(invitation).wf(),
        old(core).wf(),
        old(space).wf(),
    ensures
        final(connection).wf(),
        final(invitation).wf(),
        final(core).wf(),
        final(space).wf(),
        ({
            let early = attach_refusal(found, made, entries_room, slots);
            let open = old(connection)@.invites(*old(invitation));
            let refusal = map_refusal(
                old(core)@,
                old(space)@,
                *old(epochs),
                *before,
                now@,
                *o,
            );
            match r {
                Err(failure) => {
                    &&& failure == if early is Some {
                        TunnelFailure { error: early->0, give_back: false, roll_back: false }
                    } else if output is Err {
                        TunnelFailure { error: output->Err_0, give_back: true, roll_back: false }
                    } else if !open {
                        TunnelFailure {
                            error: SystemCallError::ObjectClosed,
                            give_back: true,
                            roll_back: false,
                        }
                    } else {
                        TunnelFailure {
                            error: refusal->0,
                            give_back: true,
                            roll_back: ledger_holds(old(core)@, old(space)@, *o),
                        }
                    }
                    &&& early is Some || output is Err || !open || refusal is Some
                    &&& final(connection)@ == old(connection)@
                    &&& *final(invitation) == *old(invitation)
                    &&& final(core)@ == old(core)@
                    &&& *final(epochs) == *old(epochs)
                    &&& final(space)@ == if early is None && output is Ok && open {
                        after_failure(old(core)@, old(space)@, *o)
                    } else {
                        old(space)@
                    }
                },
                Ok(attached) => {
                    &&& early is None && output is Ok && open && refusal is None
                    &&& attached.endpoint == tunnel::endpoint_entry(endpoint)
                    &&& attached.request == side_request(va, view.object, old(space)@.next_lease)
                    &&& attached.span == side_span(*o)
                    &&& attached.synchronization == running_change::to_tell(
                        *old(epochs),
                        *before,
                        (va / PAGE_SIZE) as usize,
                        1,
                        false,
                    )
                    &&& *final(invitation) == (Invitation { closed: true, ..*old(invitation) })
                    &&& final(connection)@ == old(connection)@.side_taken(
                        old(invitation).side as int,
                        endpoint,
                        side_lease(old(space)@, view, *o),
                    )
                    &&& final(core)@ == (CoreView {
                        permits: (old(core)@.permits + 1) as usize,
                        ..old(core)@
                    })
                    &&& running_change::view_mapped(old(space)@, final(space)@, view)
                    &&& *final(epochs) == old(epochs).changed(false)
                },
            }
        }),
{
    match handle::resolve(found, ObjectKind::TunnelInvitation, HandleRole::TunnelInvitation) {
        Err(error) => {
            return Err(TunnelFailure { error, give_back: false, roll_back: false });
        },
        Ok(_) => {},
    }
    match made {
        Err(error) => {
            return Err(TunnelFailure { error, give_back: false, roll_back: false });
        },
        Ok(_) => {},
    }
    let entry = match tunnel::make_endpoint_entry(endpoint) {
        Err(error) => {
            return Err(TunnelFailure { error, give_back: false, roll_back: false });
        },
        Ok(entry) => entry,
    };
    if !entries_room {
        return Err(
            TunnelFailure {
                error: SystemCallError::OutOfMemory,
                give_back: false,
                roll_back: false,
            },
        );
    }
    match slots {
        Err(error) => {
            return Err(
                TunnelFailure {
                    error: handle::map_error(error),
                    give_back: false,
                    roll_back: false,
                },
            );
        },
        Ok(_) => {},
    }
    match output {
        Err(error) => {
            return Err(TunnelFailure { error, give_back: true, roll_back: false });
        },
        Ok(_) => {},
    }
    match connection.check_invitation(invitation) {
        Err(error) => {
            return Err(TunnelFailure { error, give_back: true, roll_back: false });
        },
        Ok(_) => {},
    }
    match map_side(core, space, epochs, before, now, view, va, o) {
        Err(failure) => Err(
            TunnelFailure {
                error: failure.error,
                give_back: true,
                roll_back: failure.roll_back,
            },
        ),
        Ok(mapped) => {
            connection.accept(invitation, endpoint, mapped.lease);
            Ok(
                AttachedSide {
                    endpoint: entry,
                    request: mapped.request,
                    span: mapped.span,
                    synchronization: mapped.synchronization,
                },
            )
        },
    }
}

/// What taking a side's view away met with on its way. Only what is reached counts.
#[derive(Clone, Copy, Debug)]
pub struct UnmapOutcomes {
    pub validated: Result<(), ChangeError>,
    pub reserved: Result<(), ChangeError>,
    pub parts_room: bool,
    pub preflight: Result<(), MapError>,
    pub funded: Result<(), SpaceError>,
    pub change_room: bool,
    pub prepared: Result<(), MapError>,
    /// There is memory to remember what is retired.
    pub retire_room: bool,
    pub completion: Result<(), SystemCallError>,
    pub harts: Result<(), ReserveError>,
}

/// The ledger lists the region that the lease is for.
pub open spec fn known_region(lease: ObjectMappingLease, regions: Seq<Region>) -> bool {
    exists|i: int| 0 <= i < regions.len() && lease.is_region(#[trigger] regions[i])
}

/// Why a view cannot be taken away.
pub open spec fn unmap_refusal(
    space: SpaceView,
    epochs: AddressSpaceEpochs,
    before: Lifecycle,
    now: LifecycleView,
    lease: ObjectMappingLease,
    regions: Seq<Region>,
    o: UnmapOutcomes,
) -> Option<SystemCallError> {
    if space.busy {
        Some(SystemCallError::ObjectBusy)
    } else if !known_region(lease, regions) {
        Some(SystemCallError::IllegalArgument)
    } else if o.validated is Err {
        Some(space::space_reported(space::change_refusal(o.validated->Err_0)))
    } else if o.reserved is Err {
        Some(space::space_reported(space::change_refusal(o.reserved->Err_0)))
    } else if !o.parts_room {
        Some(SystemCallError::OutOfMemory)
    } else if o.preflight is Err {
        Some(space::space_reported(address_space::table_refusal(o.preflight->Err_0)))
    } else if o.funded is Err {
        Some(space::space_reported(o.funded->Err_0))
    } else if !o.change_room {
        Some(SystemCallError::OutOfMemory)
    } else if o.prepared is Err {
        Some(space::space_reported(address_space::table_refusal(o.prepared->Err_0)))
    } else if !o.retire_room {
        Some(SystemCallError::OutOfMemory)
    } else {
        commit_refusal(epochs, before, now, o.completion, o.harts, Ok(()))
    }
}

/// A side that is closed.
pub struct ClosedSide {
    /// The view on its way out; it knows whom the close concerns.
    pub retire: LeaseRetire,
    pub synchronization: ShootdownSynchronization,
    /// What the ledger was asked for.
    pub asked: LedgerChange,
    /// The objects of which views are taken away.
    pub retiring: Vec<ObjectView>,
}

/// Closes a side: its view is taken away and its peer is told once that is done. `found` is
/// what the lookup of the endpoint gave, `regions` what the ledger lists, `fragments` what it
/// takes away. `before` is the process when harts are reserved, `now` when the change is
/// committed. If anything fails nothing has happened.
pub fn close_handle(
    connection: &mut Connection,
    endpoint: &mut Endpoint,
    space: &mut BoundAddressSpace,
    epochs: &mut AddressSpaceEpochs,
    before: &Lifecycle,
    now: &Lifecycle,
    found: Result<ProcessHandleEntry, TableError>,
    regions: &Vec<Region>,
    fragments: &Vec<RetiringFragment>,
    o: &UnmapOutcomes,
) -> (r: Result<ClosedSide, ChangeFailure>)
    requires
        old(connection).wf(),
        old(endpoint).wf(),
        old(space).wf(),
        forall|i: int|
            0 <= i < fragments@.len() && address_space::fragment_object(
                #[trigger] fragments@[i],
            ) is Some ==> address_space::holds_object(
                old(space)@.views,
                address_space::fragment_object(fragments@[i])->0,
            ),
        old(connection)@.leases[old(endpoint)@.side as int] matches Some(l) ==> l.range.wf(),
    ensures
        final(connection).wf(),
        final(endpoint).wf(),
        final(space).wf(),
        ({
            let resolved = handle::resolve_result(
                found,
                ObjectKind::TunnelEndpoint,
                HandleRole::TunnelEndpoint,
            );
            let holds = old(connection)@.holds(old(endpoint)@);
            let side = old(endpoint)@.side as int;
            let lease = old(connection)@.leases[side]->0;
            let refusal = unmap_refusal(
                old(space)@,
                *old(epochs),
                *before,
                now@,
                lease,
                regions@,
                *o,
            );
            match r {
                Err(failure) => {
                    &&& failure.error == if resolved is Err {
                        resolved->Err_0
                    } else if !holds {
                        SystemCallError::ObjectClosed
                    } else {
                        refusal->0
                    }
                    &&& resolved is Err || !holds || refusal is Some
                    &&& failure.roll_back <==> resolved is Ok && holds && !old(space)@.busy
                        && known_region(lease, regions@) && o.validated is Ok && o.reserved is Ok
                    &&& final(connection)@ == old(connection)@
                    &&& final(endpoint)@ == old(endpoint)@
                    &&& final(space)@ == old(space)@
                    &&& *final(epochs) == *old(epochs)
                },
                Ok(closed) => {
                    &&& resolved is Ok && holds && refusal is None
                    &&& final(endpoint)@ == (EndpointView { closed: true, ..old(endpoint)@ })
                    &&& final(connection)@ == old(connection)@.side_closed(side)
                    &&& final(space)@ == (SpaceView { busy: false, ..old(space)@ })
                    &&& *final(epochs) == old(epochs).changed(false)
                    &&& closed.retire == (LeaseRetire {
                        lease,
                        notice: Some(old(connection)@.notice(side)),
                        fragment_retired: false,
                    })
                    &&& closed.asked == (LedgerChange::Unmap {
                        range: lease.range,
                        authority: RegionOwner::Lease(lease.lease),
                    })
                    &&& closed.synchronization == running_change::to_tell(
                        *old(epochs),
                        *before,
                        (lease.range.start / PAGE_SIZE) as usize,
                        lease.range.pages,
                        false,
                    )
                    &&& address_space::names(
                        closed.retiring@,
                        address_space::objects_of(fragments@),
                        old(space)@.views,
                    )
                },
            }
        }),
{
    match handle::resolve(found, ObjectKind::TunnelEndpoint, HandleRole::TunnelEndpoint) {
        Err(error) => {
            return Err(ChangeFailure { error, roll_back: false });
        },
        Ok(_) => {},
    }
    let lease = match connection.check_close(endpoint) {
        Err(error) => {
            return Err(ChangeFailure { error, roll_back: false });
        },
        Ok(lease) => lease,
    };
    proof {
        connection.wf_view();
        endpoint.wf_view();
        assert(connection@.sides[endpoint@.side as int] is Alive);
    }
    let asked = match space.plan_object_unmap(
        lease,
        regions,
        o.validated,
        o.reserved,
        o.parts_room,
        o.preflight,
    ) {
        Err(failure) => {
            return Err(
                ChangeFailure {
                    error: space::map_space_error(failure.error),
                    roll_back: failure.roll_back,
                },
            );
        },
        Ok(asked) => asked,
    };
    match o.funded {
        Err(error) => {
            space.clear_table_transaction();
            return Err(ChangeFailure { error: space::map_space_error(error), roll_back: true });
        },
        Ok(_) => {},
    }
    let mut parts: Vec<Result<(), MapError>> = Vec::new();
    parts.push(o.prepared);
    proof {
        reveal_with_fuel(address_space::first_refusal, 3);
    }
    match space.complete_memory_change(1, 1, o.change_room, &parts) {
        Err(error) => {
            return Err(ChangeFailure { error: space::map_space_error(error), roll_back: true });
        },
        Ok(_) => {},
    }
    if !o.retire_room {
        space.clear_table_transaction();
        return Err(ChangeFailure { error: SystemCallError::OutOfMemory, roll_back: true });
    }
    let mut retire = LeaseRetire::new(lease);
    let synchronization = match commit_prepared(
        epochs,
        before,
        now,
        o.completion,
        o.harts,
        Ok(()),
        lease.range.start / PAGE_SIZE,
        lease.range.pages,
    ) {
        Err(error) => {
            space.clear_table_transaction();
            return Err(ChangeFailure { error, roll_back: true });
        },
        Ok(synchronization) => synchronization,
    };
    let retiring = space.commit_change(None, None, None, fragments);
    let (_, notice) = connection.commit_side_close(endpoint);
    retire.install_notice(notice);
    Ok(ClosedSide { retire, synchronization, asked, retiring })
}

/// A tunnel that was created can be attached to once: the invitation is open, and using it
/// closes it.
pub proof fn invitation_is_used_once(
    endpoint: Koid,
    invitation: Invitation,
    taker: Koid,
    a: ObjectMappingLease,
    b: ObjectMappingLease,
)
    requires
        invitation == (Invitation { id: invitation.id, side: 1, closed: false }),
    ensures
        ({
            let created = ConnectionView::opened(endpoint, invitation.id, a);
            let attached = created.side_taken(1, taker, b);
            &&& created.wf() && attached.wf()
            &&& created.invites(invitation)
            &&& !attached.invites(invitation)
            &&& !attached.invites(Invitation { closed: true, ..invitation })
            &&& created.sides[0] == tunnel::SideState::Alive(endpoint) && created.leases[0] == Some(
                a,
            )
            &&& attached.sides[0] == created.sides[0] && attached.leases[0] == created.leases[0]
            &&& attached.sides[1] == tunnel::SideState::Alive(taker) && attached.leases[1] == Some(
                b,
            )
            &&& created.uninvited(1).wf() && !created.uninvited(1).invites(invitation)
            &&& created.uninvited(1).sides[0] == created.sides[0] && created.uninvited(1).leases
                == created.leases
        }),
{
}

/// A view for a side is planned exactly if nothing is short, the address space is idle and may hold
/// the object, a lease can be had, and ledger and page table take it; a lease is used up exactly
/// if the plan got that far.
pub proof fn plans_need_everything(space: SpaceView, o: SideOutcomes)
    ensures
        plan_refusal(space, o) is None <==> o.runs_room && o.holding is Ok && !space.busy && 0
            < space.next_lease < u64::MAX && o.validated is Ok && o.reserved is Ok && o.parts_room
            && o.preflight is Ok,
        leased(space, o) <==> o.runs_room && o.holding is Ok && !space.busy && 0
            < space.next_lease < u64::MAX,
        plan_refusal(space, o) is None ==> leased(space, o),
        leased(space, o) && o.validated is Err ==> plan_refusal(space, o) == Some(
            space::change_refusal(o.validated->Err_0),
        ),
        o.runs_room && o.holding is Ok && space.busy ==> plan_refusal(space, o) == Some(
            SpaceError::Busy,
        ),
{
}

/// A writable view is granted exactly if the object says so, is not sealed, and has a permit left.
pub proof fn writable_views_need_a_permit(core: CoreView, authorized: Result<(), ObjectError>)
    ensures
        write_refusal(core, authorized) is None <==> authorized is Ok && core.state is Mutable
            && core.permits < core.permit_limit,
        authorized is Ok && !(core.state is Mutable) ==> write_refusal(core, authorized) == Some(
            SystemCallError::ObjectBusy,
        ),
        authorized is Ok && core.state is Mutable && core.permits >= core.permit_limit
            ==> write_refusal(core, authorized) == Some(SystemCallError::ReachLimit),
        authorized is Err ==> write_refusal(core, authorized) == Some(
            memory_object::object_reported(authorized->Err_0),
        ),
{
}

/// A change that is prepared is committed exactly if its end could be prepared, the process runs,
/// its harts could be reserved if it has any, the answer was written, the epochs are not spent, and
/// no hart entered or left the process since.
pub proof fn commits_need_a_quiet_process(
    epochs: AddressSpaceEpochs,
    before: Lifecycle,
    now: LifecycleView,
    completion: Result<(), SystemCallError>,
    harts: Result<(), ReserveError>,
    delivered: Result<(), SystemCallError>,
)
    ensures
        commit_refusal(epochs, before, now, completion, harts, delivered) is None <==> {
            &&& completion is Ok && delivered is Ok
            &&& before@.state is Running && (before@.active == 0 || harts is Ok)
            &&& epochs.translation < u64::MAX
            &&& now.state is Running && now.execution_sequence == before@.execution_sequence
                && now.active == before@.active
        },
        completion is Err ==> commit_refusal(epochs, before, now, completion, harts, delivered)
            == Some(completion->Err_0),
{
}

/// A side's view is mapped exactly if the object grants it, it can be planned, its tables can be
/// had, and the change can be committed; the first of these that fails is told.
pub proof fn mapping_a_side_needs_every_step(
    core: CoreView,
    space: SpaceView,
    epochs: AddressSpaceEpochs,
    before: Lifecycle,
    now: LifecycleView,
    o: SideOutcomes,
)
    ensures
        ({
            let refusal = map_refusal(core, space, epochs, before, now, o);
            let committed = commit_refusal(
                epochs,
                before,
                now,
                o.completion,
                o.harts,
                o.delivered,
            );
            &&& refusal is None <==> write_refusal(core, o.authorized) is None && plan_refusal(
                space,
                o,
            ) is None && o.funded is Ok && o.change_room && o.prepared is Ok && committed is None
            &&& write_refusal(core, o.authorized) is Some ==> refusal == write_refusal(
                core,
                o.authorized,
            )
            &&& write_refusal(core, o.authorized) is None && plan_refusal(space, o) is Some
                ==> refusal == Some(space::space_reported(plan_refusal(space, o)->0))
            &&& write_refusal(core, o.authorized) is None && plan_refusal(space, o) is None
                && o.funded is Ok && o.change_room && o.prepared is Ok ==> refusal == committed
        }),
{
}

/// A failure leaves the address space as it was, but for a lease that was handed out: the next one
/// is one further, and no lease is handed out twice.
pub proof fn failures_use_up_one_lease_at_most(core: CoreView, space: SpaceView, o: SideOutcomes)
    ensures
        ({
            let after = after_failure(core, space, o);
            let handed = write_refusal(core, o.authorized) is None && leased(space, o);
            &&& handed ==> after.next_lease == space.next_lease + 1
            &&& !handed ==> after == space
            &&& (SpaceView { next_lease: space.next_lease, ..after }) == space
        }),
{
}

/// What is asked for on behalf of a side is one page at the address given, without guards, to read
/// and to write, of the object from its start, and under the lease.
pub proof fn sides_ask_for_one_page(va: usize, object: u64, lease: u64)
    ensures
        ({
            let asked = side_request(va, object, lease);
            &&& asked.bytes == 4096 && asked.guard_before == 0 && asked.guard_after == 0
            &&& asked.placement == (MapPlacement::FixedEmpty { usable_start: va })
            &&& asked.current is ReadWrite && asked.maximum is ReadWrite
            &&& asked.owner == RegionOwner::Lease(lease) && asked.result is None
            &&& asked.backing matches MapBacking::Object { object: shown, maximum, offset }
                && shown == object && maximum is ReadWrite && offset == 0
        }),
{
}

/// The lease that is remembered is for what was mapped: the lease handed out, the region and place
/// that the ledger gave, the object from its start, to read and to write. One page is entered, at
/// that place, with the object's frame.
pub proof fn leases_remember_the_view(space: SpaceView, view: ObjectView, o: SideOutcomes)
    requires
        o.validated is Ok,
    ensures
        ({
            let lease = side_lease(space, view, o);
            let (layout, region) = o.validated->Ok_0;
            &&& lease.lease == space.next_lease && lease.region == region
            &&& lease.range == layout.usable && lease.object == view.object
            &&& lease.object_offset == 0 && lease.protection is ReadWrite
            &&& side_span(o).pages == 1 && side_span(o).ppn == o.frame
            &&& side_span(o).vpn * 4096 <= layout.usable.start < side_span(o).vpn * 4096 + 4096
        }),
{
}

/// A call that publishes handles, and an attach, get their slots exactly if every step before it
/// succeeds; the first that fails is told.
pub proof fn slots_need_every_step(
    found: Result<ProcessHandleEntry, TableError>,
    made: Result<(), SystemCallError>,
    entries_room: bool,
    slots: Result<(), TableError>,
)
    ensures
        slots_refusal(made, entries_room, slots) is None <==> made is Ok && entries_room
            && slots is Ok,
        made is Err ==> slots_refusal(made, entries_room, slots) == Some(made->Err_0),
        made is Ok && !entries_room ==> slots_refusal(made, entries_room, slots) == Some(
            SystemCallError::OutOfMemory,
        ),
        made is Ok && entries_room && slots is Err ==> slots_refusal(made, entries_room, slots)
            == Some(handle::reported(slots->Err_0)),
        attach_refusal(found, made, entries_room, slots) is None <==> (found matches Ok(entry)
            && entry.kind is TunnelInvitation && entry.role is TunnelInvitation) && made is Ok
            && entries_room && slots is Ok,
{
}

/// A view is taken away exactly if the address space is idle, the ledger lists it, ledger and page
/// table take the change, nothing is short, and the change can be committed.
pub proof fn unmapping_needs_every_step(
    space: SpaceView,
    epochs: AddressSpaceEpochs,
    before: Lifecycle,
    now: LifecycleView,
    lease: ObjectMappingLease,
    regions: Seq<Region>,
    o: UnmapOutcomes,
)
    ensures
        ({
            let refusal = unmap_refusal(space, epochs, before, now, lease, regions, o);
            let committed = commit_refusal(epochs, before, now, o.completion, o.harts, Ok(()));
            &&& refusal is None <==> !space.busy && known_region(lease, regions) && o.validated is Ok
                && o.reserved is Ok && o.parts_room && o.preflight is Ok && o.funded is Ok
                && o.change_room && o.prepared is Ok && o.retire_room && committed is None
            &&& space.busy ==> refusal == Some(SystemCallError::ObjectBusy)
            &&& !space.busy && !known_region(lease, regions) ==> refusal == Some(
                SystemCallError::IllegalArgument,
            )
        }),
{
}

/// What is told when mapping a side, or taking its view away, fails: each failure as what it is, and
/// only if everything before it succeeded.
pub proof fn side_failures_are_told_as_they_are(
    core: CoreView,
    space: SpaceView,
    epochs: AddressSpaceEpochs,
    before: Lifecycle,
    now: LifecycleView,
    lease: ObjectMappingLease,
    regions: Seq<Region>,
    o: SideOutcomes,
    u: UnmapOutcomes,
)
    ensures
        !o.runs_room ==> plan_refusal(space, o) == Some(SpaceError::NoFrame),
        o.runs_room && o.holding is Err ==> plan_refusal(space, o) == Some(o.holding->Err_0),
        leased(space, o) && o.validated is Ok && o.reserved is Err ==> plan_refusal(space, o)
            == Some(space::change_refusal(o.reserved->Err_0)),
        leased(space, o) && o.validated is Ok && o.reserved is Ok && !o.parts_room ==> plan_refusal(
            space,
            o,
        ) == Some(SpaceError::NoFrame),
        leased(space, o) && o.validated is Ok && o.reserved is Ok && o.parts_room
            && o.preflight is Err ==> plan_refusal(space, o) == Some(
            address_space::table_refusal(o.preflight->Err_0),
        ),
        ({
            let planned = write_refusal(core, o.authorized) is None && plan_refusal(
                space,
                o,
            ) is None;
            let refusal = map_refusal(core, space, epochs, before, now, o);
            &&& planned && o.funded is Err ==> refusal == Some(
                space::space_reported(o.funded->Err_0),
            )
            &&& planned && o.funded is Ok && !o.change_room ==> refusal == Some(
                SystemCallError::OutOfMemory,
            )
            &&& planned && o.funded is Ok && o.change_room && o.prepared is Err ==> refusal == Some(
                space::space_reported(address_space::table_refusal(o.prepared->Err_0)),
            )
        }),
        ({
            let listed = !space.busy && known_region(lease, regions);
            let taken = listed && u.validated is Ok && u.reserved is Ok;
            let checked = taken && u.parts_room && u.preflight is Ok;
            let made = checked && u.funded is Ok && u.change_room && u.prepared is Ok;
            let refusal = unmap_refusal(space, epochs, before, now, lease, regions, u);
            &&& listed && u.validated is Err ==> refusal == Some(
                space::space_reported(space::change_refusal(u.validated->Err_0)),
            )
            &&& listed && u.validated is Ok && u.reserved is Err ==> refusal == Some(
                space::space_reported(space::change_refusal(u.reserved->Err_0)),
            )
            &&& taken && !u.parts_room ==> refusal == Some(SystemCallError::OutOfMemory)
            &&& taken && u.parts_room && u.preflight is Err ==> refusal == Some(
                space::space_reported(address_space::table_refusal(u.preflight->Err_0)),
            )
            &&& checked && u.funded is Err ==> refusal == Some(
                space::space_reported(u.funded->Err_0),
            )
            &&& checked && u.funded is Ok && !u.change_room ==> refusal == Some(
                SystemCallError::OutOfMemory,
            )
            &&& checked && u.funded is Ok && u.change_room && u.prepared is Err ==> refusal == Some(
                space::space_reported(address_space::table_refusal(u.prepared->Err_0)),
            )
            &&& made && !u.retire_room ==> refusal == Some(SystemCallError::OutOfMemory)
        }),
{
}

} // verus!
