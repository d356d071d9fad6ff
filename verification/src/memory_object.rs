//! Memory objects: pages that can be mapped into several address spaces, and made
//! executable once nobody can write to them any more.
use vstd::prelude::*;

use crate::error::SystemCallError;
use crate::handle;
use crate::handle::{ProcessHandleEntry, TableError};
use crate::memory_pool::{FundError, PoolError};
use crate::notify_work::Reservation;
use crate::object;
use crate::object::{HandleRole, Koid, ObjectKind, ObjectWaitState, WaitView};
use crate::rights;
use crate::rights::Rights;
use crate::signals;
use crate::signals::ObjectSignals;

verus! {

/// How many writable views one object may have at a time.
pub const MAX_WRITE_VIEWS_PER_OBJECT: usize = 64;

/// How many writable views the object behind a tunnel may have: one per end.
pub const TUNNEL_WRITE_VIEWS: usize = 2;

pub const PAGE_SIZE: u64 = 4_096;

/// What a view of an object may be used for.
#[derive(Clone, Copy, Debug, PartialEq, Eq, Structural)]
pub enum Protection {
    ReadOnly,
    ReadWrite,
    ReadExecute,
}

/// Where an object stands on its way to being executable.
#[derive(Clone, Copy, Debug, PartialEq, Eq, Structural)]
pub enum ExecutableState {
    Mutable,
    /// Asked to become executable; writable views are still there.
    Sealing,
    Executable,
}

/// Why an object refused.
#[derive(Clone, Copy, Debug, PartialEq, Eq, Structural)]
pub enum ObjectError {
    AllocationFailed,
    PermitLimit,
    ViewDenied,
    PermitDenied,
    PermitOverflow,
}

/// How a failure to fund an object is reported: a quota, a structural limit and a lack
/// of memory are told apart.
pub fn map_fund_error(error: FundError) -> (r: SystemCallError)
    ensures
        r == match error {
            FundError::Quota(PoolError::QuotaExceeded) => SystemCallError::QuotaExceeded,
            FundError::PageLimit | FundError::ExtentLimit => SystemCallError::ReachLimit,
            _ => SystemCallError::OutOfMemory,
        },
{
    match error {
        FundError::Quota(PoolError::QuotaExceeded) => SystemCallError::QuotaExceeded,
        FundError::Quota(_) => SystemCallError::OutOfMemory,
        FundError::PageLimit | FundError::ExtentLimit => SystemCallError::ReachLimit,
        FundError::ZeroPages | FundError::InvalidClaim | FundError::Physical => {
            SystemCallError::OutOfMemory
        },
    }
}

/// How an object's refusal is reported.
pub open spec fn object_reported(error: ObjectError) -> SystemCallError {
    match error {
        ObjectError::AllocationFailed => SystemCallError::OutOfMemory,
        ObjectError::PermitLimit => SystemCallError::ReachLimit,
        ObjectError::ViewDenied | ObjectError::PermitDenied => SystemCallError::ObjectBusy,
        ObjectError::PermitOverflow => SystemCallError::InternalError,
    }
}

/// How an object's refusal is reported.
pub fn map_object_error(error: ObjectError) -> (r: SystemCallError)
    ensures
        r == object_reported(error),
{
    match error {
        ObjectError::AllocationFailed => SystemCallError::OutOfMemory,
        ObjectError::PermitLimit => SystemCallError::ReachLimit,
        ObjectError::ViewDenied | ObjectError::PermitDenied => SystemCallError::ObjectBusy,
        ObjectError::PermitOverflow => SystemCallError::InternalError,
    }
}

/// The object itself: its identity and length, who may write to it, and its levels.
pub struct MemoryObjectCore {
    identity: Koid,
    pages: usize,
    state: ExecutableState,
    permits: usize,
    permit_limit: usize,
    wait: ObjectWaitState,
}

/// The object itself, as a value.
#[verifier::ext_equal]
pub struct CoreView {
    pub identity: Koid,
    pub pages: usize,
    pub state: ExecutableState,
    /// How many permits to write are out.
    pub permits: usize,
    pub permit_limit: usize,
    pub wait: WaitView,
}

impl View for MemoryObjectCore {
    type V = CoreView;

    closed spec fn view(&self) -> CoreView {
        CoreView {
            identity: self.identity,
            pages: self.pages,
            state: self.state,
            permits: self.permits,
            permit_limit: self.permit_limit,
            wait: self.wait@,
        }
    }
}

impl CoreView {
    /// What every operation keeps: the object is executable only without permits to
    /// write, and then shows it; an object that shows it is executable.
    pub open spec fn wf(self) -> bool {
        &&& self.wait.wf()
        &&& self.permits <= self.permit_limit
        &&& self.state is Executable ==> self.permits == 0
        &&& self.state is Sealing ==> self.permits > 0
        &&& self.state is Executable ==> self.wait.signals == signals::EXECUTABLE
            || self.wait.signals == signals::CLOSED
        &&& self.state is Executable && self.wait.serial < u64::MAX ==> self.wait.signals
            == signals::EXECUTABLE
        &&& !(self.state is Executable) ==> self.wait.signals == signals::NONE
    }

    /// The state in which the object is executable and shows it.
    pub open spec fn executable(self) -> CoreView {
        CoreView {
            state: ExecutableState::Executable,
            wait: self.wait.updated(signals::NONE, signals::EXECUTABLE),
            ..self
        }
    }

    /// Why the object does not hand out `count` permits.
    pub open spec fn writes_refusal(self, count: int) -> Option<ObjectError> {
        if !(self.state is Mutable) {
            Some(ObjectError::PermitDenied)
        } else if count > self.permit_limit - self.permits {
            Some(ObjectError::PermitLimit)
        } else {
            None
        }
    }

    /// The state once the object is asked to become executable.
    pub open spec fn sealed(self) -> CoreView {
        if !(self.state is Mutable) {
            self
        } else if self.permits == 0 {
            self.executable()
        } else {
            CoreView { state: ExecutableState::Sealing, ..self }
        }
    }

    /// The state with one permit fewer. The last permit of an object that is asked to
    /// become executable makes it so.
    pub open spec fn permit_returned(self) -> CoreView {
        let rest = CoreView { permits: (self.permits - 1) as usize, ..self };
        if self.state is Sealing && self.permits == 1 {
            rest.executable()
        } else {
            rest
        }
    }
}

/// Publishing that an object is executable keeps it well formed.
proof fn executable_keeps_wf(core: CoreView)
    requires
        core.wait.wf(),
        core.permits == 0,
        core.wait.signals == signals::NONE,
    ensures
        core.executable().wf(),
        core.wait.serial < u64::MAX ==> core.executable().wait.signals == signals::EXECUTABLE,
{
    object::update_keeps_wf(core.wait, signals::NONE, signals::EXECUTABLE);
    signals::closed_is_last();
    assert((0u64 & !0u64) | 0x80u64 == 0x80u64 && 0u64 & 0x100u64 == 0) by (bit_vector);
    object::publication_is_exact(core.wait, signals::NONE, signals::EXECUTABLE);
}

impl MemoryObjectCore {
    pub closed spec fn wf(&self) -> bool {
        self@.wf() && self.wait.wf()
    }

    pub proof fn wf_view(&self)
        requires
            self.wf(),
        ensures
            self@.wf(),
    {
    }

    /// An object of `pages` that can be written to through at most `permit_limit`
    /// views.
    pub fn new(identity: Koid, pages: usize, permit_limit: usize) -> (r: MemoryObjectCore)
        ensures
            r.wf(),
            r@.identity == identity,
            r@.pages == pages,
            r@.state is Mutable,
            r@.permits == 0,
            r@.permit_limit == permit_limit,
            r@.wait == WaitView::fresh(signals::NONE),
    {
        let core = MemoryObjectCore {
            identity,
            pages,
            state: ExecutableState::Mutable,
            permits: 0,
            permit_limit,
            wait: ObjectWaitState::new(signals::NONE),
        };
        proof {
            core.wait.wf_view();
        }
        core
    }

    /// Hands out `count` permits to write, all or none. An object that is asked to
    /// become executable, or is, hands none out.
    pub fn reserve_writes(&mut self, count: usize) -> (r: Result<(), ObjectError>)
        requires
            old(self).wf(),
        ensures
            final(self).wf(),
            r == match old(self)@.writes_refusal(count as int) {
                Some(error) => Err::<(), _>(error),
                None => Ok(()),
            },
            final(self)@ == if r is Ok {
                CoreView { permits: (old(self)@.permits + count) as usize, ..old(self)@ }
            } else {
                old(self)@
            },
    {
        match self.state {
            ExecutableState::Mutable => {},
            _ => {
                return Err(ObjectError::PermitDenied);
            },
        }
        if count > self.permit_limit - self.permits {
            return Err(ObjectError::PermitLimit);
        }
        self.permits = self.permits + count;
        Ok(())
    }

    /// Takes one permit back, whether it was used or not; whether that made the object
    /// executable.
    pub fn retire_write(&mut self) -> (r: bool)
        requires
            old(self).wf(),
            old(self)@.permits > 0,
        ensures
            final(self).wf(),
            final(self)@ == old(self)@.permit_returned(),
            r == (old(self)@.state is Sealing && old(self)@.permits == 1),
    {
        self.permits = self.permits - 1;
        let last: bool = match self.state {
            ExecutableState::Sealing => self.permits == 0,
            _ => false,
        };
        if last {
            self.state = ExecutableState::Executable;
            proof {
                executable_keeps_wf(self@);
            }
            self.wait.update(signals::NONE, signals::EXECUTABLE);
        }
        last
    }

    /// Takes `count` permits back that were not used.
    pub fn cancel_writes(&mut self, count: usize)
        requires
            old(self).wf(),
            count <= old(self)@.permits,
        ensures
            final(self).wf(),
            final(self)@.permits == old(self)@.permits - count,
            final(self)@.identity == old(self)@.identity,
            final(self)@.pages == old(self)@.pages,
            final(self)@.permit_limit == old(self)@.permit_limit,
            final(self)@.state == if old(self)@.state is Sealing && count == old(self)@.permits {
                ExecutableState::Executable
            } else {
                old(self)@.state
            },
            final(self)@.wait == if old(self)@.state is Sealing && count == old(self)@.permits
                && count > 0 {
                old(self)@.wait.updated(signals::NONE, signals::EXECUTABLE)
            } else {
                old(self)@.wait
            },
    {
        let mut left: usize = count;
        while left > 0
            invariant
                self.wf(),
                left <= count <= old(self)@.permits,
                self@.permits == old(self)@.permits - (count - left),
                self@.identity == old(self)@.identity,
                self@.pages == old(self)@.pages,
                self@.permit_limit == old(self)@.permit_limit,
                self@.state == if old(self)@.state is Sealing && self@.permits == 0 {
                    ExecutableState::Executable
                } else {
                    old(self)@.state
                },
                self@.wait == if old(self)@.state is Sealing && self@.permits == 0
                    && old(self)@.permits > 0 {
                    old(self)@.wait.updated(signals::NONE, signals::EXECUTABLE)
                } else {
                    old(self)@.wait
                },
                old(self).wf(),
            decreases left,
        {
            self.retire_write();
            left = left - 1;
        }
    }

    /// Asks the object to become executable; whether it is so at once. Asking again
    /// changes nothing.
    pub fn seal(&mut self) -> (r: bool)
        requires
            old(self).wf(),
        ensures
            final(self).wf(),
            r == (old(self)@.state is Mutable && old(self)@.permits == 0),
            final(self)@ == old(self)@.sealed(),
    {
        match self.state {
            ExecutableState::Mutable => {},
            _ => {
                return false;
            },
        }
        if self.permits != 0 {
            self.state = ExecutableState::Sealing;
            return false;
        }
        self.state = ExecutableState::Executable;
        proof {
            executable_keeps_wf(self@);
        }
        self.wait.update(signals::NONE, signals::EXECUTABLE);
        true
    }

    /// Grants a view: `authorized` is whether the object admits a view of this kind. A
    /// writable view also gets a permit; both are one step, so that no writable view
    /// slips past a seal.
    pub fn authorize(
        &mut self,
        protection: Protection,
        authorized: Result<(), ObjectError>,
    ) -> (r: Result<usize, SystemCallError>)
        requires
            old(self).wf(),
        ensures
            final(self).wf(),
            r == if authorized is Err {
                Err::<usize, _>(object_reported(authorized->Err_0))
            } else if protection != Protection::ReadWrite {
                Ok(0)
            } else if !(old(self)@.state is Mutable) {
                Err(SystemCallError::ObjectBusy)
            } else if old(self)@.permits >= old(self)@.permit_limit {
                Err(SystemCallError::ReachLimit)
            } else {
                Ok(1)
            },
            final(self)@ == if r is Ok {
                CoreView { permits: (old(self)@.permits + r->Ok_0) as usize, ..old(self)@ }
            } else {
                old(self)@
            },
    {
        match authorized {
            Err(error) => {
                return Err(map_object_error(error));
            },
            Ok(_) => {},
        }
        match protection {
            Protection::ReadWrite => {},
            _ => {
                return Ok(0);
            },
        }
        match self.reserve_writes(1) {
            Err(error) => Err(map_object_error(error)),
            Ok(_) => Ok(1),
        }
    }

    /// What a query of the object tells: identity, length in bytes, writable views and
    /// state.
    pub fn snapshot(&self) -> (r: (Koid, u64, u64, ExecutableState))
        requires
            self.wf(),
            self@.pages <= u64::MAX / PAGE_SIZE,
        ensures
            r == (
                self@.identity,
                (self@.pages * PAGE_SIZE) as u64,
                self@.permits as u64,
                self@.state,
            ),
    {
        proof {
            let p = self.pages as int;
            assert(p * 4096 <= u64::MAX) by (nonlinear_arith)
                requires
                    p <= u64::MAX / 4096,
            ;
        }
        (self.identity, self.pages as u64 * PAGE_SIZE, self.permits as u64, self.state)
    }

    /// The levels shown.
    pub fn signals(&self) -> (r: ObjectSignals)
        ensures
            r == self@.wait.signals,
    {
        self.wait.signals()
    }

    /// Its observers. Whatever is done with them, the object stays in order as long
    /// as its levels are left alone.
    pub fn observers(&mut self) -> (r: &mut ObjectWaitState)
        requires
            old(self).wf(),
        ensures
            r.wf(),
            r@ == old(self)@.wait,
            final(self)@ == (CoreView { wait: final(r)@, ..old(self)@ }),
            final(r).wf() && final(r)@.wf() && final(r)@.same_levels(old(self)@.wait)
                ==> final(self).wf(),
    {
        &mut self.wait
    }

    /// Queues the object if its observers have something to learn.
    pub fn finish_waiters(&mut self) -> (r: Option<(Reservation, Koid)>)
        requires
            old(self).wf(),
        ensures
            final(self).wf(),
            r == old(self)@.wait.news(),
            final(self)@ == (CoreView { wait: old(self)@.wait.queued(), ..old(self)@ }),
    {
        let pending = self.wait.take_notification();
        proof {
            self.wait.wf_view();
        }
        pending
    }
}

/// What a caller asks for when it creates an object.
#[derive(Clone, Copy, Debug, PartialEq, Eq, Structural)]
pub struct MemoryObjectCreateRequest {
    pub bytes: u64,
    /// The reserved words are all zero.
    pub reserved_clear: bool,
}

/// How many pages `bytes` take.
pub open spec fn pages_of(bytes: int) -> int {
    (bytes + PAGE_SIZE - 1) / PAGE_SIZE as int
}

/// How many pages the object that is asked for has; at most `max_pages`.
pub fn check_create(request: MemoryObjectCreateRequest, max_pages: u64) -> (r: Result<
    u64,
    SystemCallError,
>)
    ensures
        r == if !request.reserved_clear || request.bytes == 0 {
            Err::<u64, _>(SystemCallError::IllegalArgument)
        } else if pages_of(request.bytes as int) > max_pages {
            Err(SystemCallError::ReachLimit)
        } else {
            Ok(pages_of(request.bytes as int) as u64)
        },
        r matches Ok(pages) ==> (pages - 1) * PAGE_SIZE < request.bytes <= pages * PAGE_SIZE,
{
    if !request.reserved_clear || request.bytes == 0 {
        return Err(SystemCallError::IllegalArgument);
    }
    let pages: u64 = (request.bytes - 1) / PAGE_SIZE + 1;
    if pages > max_pages {
        return Err(SystemCallError::ReachLimit);
    }
    Ok(pages)
}

/// Creates an object: the entry to publish, with all rights. `made` is what making the
/// object of that many pages gave.
pub fn create(
    request: MemoryObjectCreateRequest,
    max_pages: u64,
    made: Result<Koid, SystemCallError>,
) -> (r: Result<(u64, ProcessHandleEntry), SystemCallError>)
    ensures
        r == if !request.reserved_clear || request.bytes == 0 {
            Err::<(u64, ProcessHandleEntry), _>(SystemCallError::IllegalArgument)
        } else if pages_of(request.bytes as int) > max_pages {
            Err(SystemCallError::ReachLimit)
        } else {
            match made {
                Err(error) => Err(error),
                Ok(object) => Ok(
                    (
                        pages_of(request.bytes as int) as u64,
                        ProcessHandleEntry {
                            object,
                            kind: ObjectKind::MemoryObject,
                            role: HandleRole::MemoryObject,
                            rights: rights::MEMORY_OBJECT,
                        },
                    ),
                ),
            }
        },
{
    let pages: u64 = match check_create(request, max_pages) {
        Err(error) => {
            return Err(error);
        },
        Ok(pages) => pages,
    };
    let object: Koid = match made {
        Err(error) => {
            return Err(error);
        },
        Ok(object) => object,
    };
    proof {
        handle::all_rights_may_enter(object, ObjectKind::MemoryObject, HandleRole::MemoryObject);
    }
    match handle::entry(
        object,
        ObjectKind::MemoryObject,
        HandleRole::MemoryObject,
        rights::MEMORY_OBJECT,
    ) {
        Err(error) => Err(handle::map_error(error)),
        Ok(entry) => Ok((pages, entry)),
    }
}

/// Tells a caller of the object that `found` names (a lookup that demands the right to read).
/// `output` says whether the answer can be written where the caller wants it.
pub fn query(
    core: &MemoryObjectCore,
    found: Result<ProcessHandleEntry, TableError>,
    output: Result<(), SystemCallError>,
) -> (r: Result<(Koid, u64, u64, ExecutableState), SystemCallError>)
    requires
        core.wf(),
        core@.pages <= u64::MAX / PAGE_SIZE,
    ensures
        r == match handle::resolve_result(
            found,
            ObjectKind::MemoryObject,
            HandleRole::MemoryObject,
        ) {
            Err(error) => Err::<(Koid, u64, u64, ExecutableState), _>(error),
            Ok(_) => match output {
                Err(error) => Err(error),
                Ok(_) => Ok(
                    (
                        core@.identity,
                        (core@.pages * PAGE_SIZE) as u64,
                        core@.permits as u64,
                        core@.state,
                    ),
                ),
            },
        },
{
    match handle::resolve(found, ObjectKind::MemoryObject, HandleRole::MemoryObject) {
        Err(error) => {
            return Err(error);
        },
        Ok(_) => {},
    }
    let snapshot = core.snapshot();
    match output {
        Err(error) => Err(error),
        Ok(_) => Ok(snapshot),
    }
}

/// Asks the object that `found` names (a lookup that demands the right to manage) to become
/// executable; whether it is so at once. An object that is executable stays so.
pub fn seal(core: &mut MemoryObjectCore, found: Result<ProcessHandleEntry, TableError>) -> (r:
    Result<bool, SystemCallError>)
    requires
        old(core).wf(),
    ensures
        final(core).wf(),
        ({
            let resolved = handle::resolve_result(
                found,
                ObjectKind::MemoryObject,
                HandleRole::MemoryObject,
            );
            &&& r == match resolved {
                Err(error) => Err::<bool, _>(error),
                Ok(_) => Ok(old(core)@.state is Mutable && old(core)@.permits == 0),
            }
            &&& final(core)@ == if r is Ok {
                old(core)@.sealed()
            } else {
                old(core)@
            }
        }),
{
    match handle::resolve(found, ObjectKind::MemoryObject, HandleRole::MemoryObject) {
        Err(error) => Err(error),
        Ok(_) => Ok(core.seal()),
    }
}

/// The rights that a view needs: mapping and reading, and writing or executing for a
/// view that allows it.
pub open spec fn view_rights(protection: Protection) -> Rights {
    match protection {
        Protection::ReadOnly => rights::MAP | rights::READ,
        Protection::ReadWrite => rights::MAP | rights::READ | rights::WRITE,
        Protection::ReadExecute => rights::MAP | rights::READ | rights::EXECUTE,
    }
}

/// The rights that a view needs.
pub fn required_rights(protection: Protection) -> (r: Rights)
    ensures
        r == view_rights(protection),
{
    match protection {
        Protection::ReadOnly => rights::MAP | rights::READ,
        Protection::ReadWrite => rights::MAP | rights::READ | rights::WRITE,
        Protection::ReadExecute => rights::MAP | rights::READ | rights::EXECUTE,
    }
}

/// Nothing writes to an executable object: no permit is out, none is handed out again, and
/// asking it to become executable once more changes nothing.
pub proof fn executable_is_final(core: CoreView, count: int)
    requires
        core.wf(),
        core.state is Executable,
    ensures
        core.permits == 0,
        core.writes_refusal(count) == Some(ObjectError::PermitDenied),
        core.sealed() == core,
{
}

/// An object that is asked to become executable hands out no permit any more.
pub proof fn sealed_object_grants_nothing(core: CoreView, count: int)
    requires
        core.wf(),
    ensures
        core.sealed().writes_refusal(count) == Some(ObjectError::PermitDenied),
        core.sealed().sealed() == core.sealed(),
{
}

/// Once asked to become executable, an object becomes so exactly when its last writable
/// view is gone: each permit that comes back brings it one step closer.
pub proof fn sealing_ends_with_the_last_permit(core: CoreView)
    requires
        core.wf(),
        core.state is Sealing,
    ensures
        core.permits == 1 ==> core.permit_returned().state is Executable,
        core.permits > 1 ==> core.permit_returned().state is Sealing
            && core.permit_returned().permits == core.permits - 1,
{
}

/// Sealing: an object without permits out becomes executable at once, one with permits out when
/// the last comes back, and one that is sealed, or on its way, stays what it is. Neither the
/// object's size nor its permits change by it.
pub proof fn sealing_in_full(core: CoreView)
    requires
        core.wf(),
    ensures
        ({
            let after = core.sealed();
            &&& core.state is Mutable && core.permits == 0 ==> after.state is Executable
            &&& core.state is Mutable && core.permits > 0 ==> after.state is Sealing && after.wait
                == core.wait
            &&& !(core.state is Mutable) ==> after == core
            &&& (after.identity, after.pages, after.permits, after.permit_limit) == (
                core.identity,
                core.pages,
                core.permits,
                core.permit_limit,
            )
            &&& after.state is Executable && core.wait.serial < u64::MAX ==> after.wait.signals
                == 0x80
            &&& after.wf()
        }),
{
    if core.state is Mutable && core.permits == 0 {
        executable_keeps_wf(core);
    }
}

/// A permit that comes back is one less out, and nothing else, unless it is the last that an
/// object waits for: then the object becomes executable and shows it.
pub proof fn permits_come_back_one_by_one(core: CoreView)
    requires
        core.wf(),
        core.permits > 0,
    ensures
        ({
            let after = core.permit_returned();
            &&& after.permits == core.permits - 1
            &&& (after.identity, after.pages, after.permit_limit) == (
                core.identity,
                core.pages,
                core.permit_limit,
            )
            &&& core.state is Sealing && core.permits == 1 <==> after.state is Executable
            &&& !(core.state is Sealing && core.permits == 1) ==> after.state == core.state
                && after.wait == core.wait
            &&& after.wf()
        }),
{
    if core.state is Sealing && core.permits == 1 {
        executable_keeps_wf(CoreView { permits: 0, ..core });
    }
}

/// When permits are refused: by an object that is sealed or on its way, and by one that has not
/// that many left.
pub proof fn permits_are_handed_out_while_mutable(core: CoreView, count: int)
    ensures
        core.writes_refusal(count) is None <==> core.state is Mutable && core.permits + count
            <= core.permit_limit,
        core.writes_refusal(count) == Some(ObjectError::PermitDenied) <==> !(core.state is Mutable),
        core.writes_refusal(count) == Some(ObjectError::PermitLimit) <==> core.state is Mutable
            && core.permits + count > core.permit_limit,
{
}

/// The least number of pages that hold the bytes.
pub proof fn object_pages_just_hold_the_bytes(bytes: int)
    requires
        bytes >= 0,
    ensures
        bytes <= pages_of(bytes) * 4096 < bytes + 4096,
{
}

/// A view needs the rights to map and to read, the right to write exactly if it can be written, and
/// the right to execute exactly if it can be executed; nothing else.
pub proof fn views_need_their_rights(protection: Protection)
    ensures
        view_rights(protection) & rights::MAP != 0 && view_rights(protection) & rights::READ != 0,
        view_rights(protection) & rights::WRITE != 0 <==> protection is ReadWrite,
        view_rights(protection) & rights::EXECUTE != 0 <==> protection is ReadExecute,
        view_rights(protection) & !0xfu64 == 0,
{
    assert({
        &&& (0x8u64 | 0x1) & 0x8 != 0 && (0x8u64 | 0x1) & 0x1 != 0 && (0x8u64 | 0x1) & 0x2 == 0 && (
        0x8u64 | 0x1) & 0x4 == 0 && (0x8u64 | 0x1) & !0xfu64 == 0
        &&& (0x8u64 | 0x1 | 0x2) & 0x8 != 0 && (0x8u64 | 0x1 | 0x2) & 0x1 != 0 && (0x8u64 | 0x1
            | 0x2) & 0x2 != 0 && (0x8u64 | 0x1 | 0x2) & 0x4 == 0 && (0x8u64 | 0x1 | 0x2) & !0xfu64
            == 0
        &&& (0x8u64 | 0x1 | 0x4) & 0x8 != 0 && (0x8u64 | 0x1 | 0x4) & 0x1 != 0 && (0x8u64 | 0x1
            | 0x4) & 0x2 == 0 && (0x8u64 | 0x1 | 0x4) & 0x4 != 0 && (0x8u64 | 0x1 | 0x4) & !0xfu64
            == 0
    }) by (bit_vector);
}

/// Refusals of an object: what is sealed is busy for writers, a limit is a limit, and only a count
/// that cannot be right is the kernel's fault.
pub proof fn object_refusals_keep_their_sense(error: ObjectError)
    ensures
        object_reported(error) == SystemCallError::ObjectBusy <==> error is ViewDenied
            || error is PermitDenied,
        object_reported(error) == SystemCallError::ReachLimit <==> error is PermitLimit,
        object_reported(error) == SystemCallError::OutOfMemory <==> error is AllocationFailed,
        object_reported(error) == SystemCallError::InternalError <==> error is PermitOverflow,
{
}

} // verus!
