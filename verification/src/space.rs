//! What can go wrong with an address space, and how it is reported.
use vstd::prelude::*;

use crate::error::SystemCallError;
use crate::memory_pool::{FundError, PoolError};

verus! {

/// Why an address space refused.
#[derive(Clone, Copy, Debug, PartialEq, Eq, Structural)]
pub enum SpaceError {
    NoFrame,
    QuotaExceeded,
    ReachLimit,
    BadSegment,
    Conflict,
    NotMapped,
    PermissionDenied,
    Busy,
    Unbound,
}

/// How the refusal is reported.
pub open spec fn space_reported(error: SpaceError) -> SystemCallError {
    match error {
        SpaceError::NoFrame => SystemCallError::OutOfMemory,
        SpaceError::QuotaExceeded => SystemCallError::QuotaExceeded,
        SpaceError::ReachLimit => SystemCallError::ReachLimit,
        SpaceError::BadSegment => SystemCallError::IllegalArgument,
        SpaceError::Conflict => SystemCallError::AddressConflict,
        SpaceError::NotMapped => SystemCallError::NotMapped,
        SpaceError::PermissionDenied => SystemCallError::RightsDenied,
        SpaceError::Busy => SystemCallError::ObjectBusy,
        SpaceError::Unbound => SystemCallError::ObjectNotAvailable,
    }
}

/// How the refusal is reported.
pub fn map_space_error(error: SpaceError) -> (r: SystemCallError)
    ensures
        r == space_reported(error),
{
    match error {
        SpaceError::NoFrame => SystemCallError::OutOfMemory,
        SpaceError::QuotaExceeded => SystemCallError::QuotaExceeded,
        SpaceError::ReachLimit => SystemCallError::ReachLimit,
        SpaceError::BadSegment => SystemCallError::IllegalArgument,
        SpaceError::Conflict => SystemCallError::AddressConflict,
        SpaceError::NotMapped => SystemCallError::NotMapped,
        SpaceError::PermissionDenied => SystemCallError::RightsDenied,
        SpaceError::Busy => SystemCallError::ObjectBusy,
        SpaceError::Unbound => SystemCallError::ObjectNotAvailable,
    }
}

/// How the refusal is reported to whoever builds a process or creates a thread: an
/// occupied range is an address that cannot be used.
pub open spec fn building_reported(error: SpaceError) -> SystemCallError {
    match error {
        SpaceError::Conflict => SystemCallError::InvalidAddress,
        _ => space_reported(error),
    }
}

/// How the refusal is reported to whoever builds a process or creates a thread.
pub fn map_building_error(error: SpaceError) -> (r: SystemCallError)
    ensures
        r == building_reported(error),
{
    match error {
        SpaceError::Conflict => SystemCallError::InvalidAddress,
        _ => map_space_error(error),
    }
}

/// Why the ledger of an address space refused a change.
#[derive(Clone, Copy, Debug, PartialEq, Eq, Structural)]
pub enum ChangeError {
    Conflict,
    NotCovered,
    Guard,
    OwnerDenied,
    PermissionDenied,
    Busy,
    Stale,
    PageLimit,
    RegionLimit,
    TransactionLimit,
    KeyExhausted,
    AllocationFailed,
    BadLimits,
    Range,
    OutOfBounds,
    BackingOutOfRange,
    ObjectAuthorization,
    LeaseInvalid,
    LeaseTooLarge,
    PermitMismatch,
}

/// What the ledger's refusal means for the address space.
pub open spec fn change_refusal(error: ChangeError) -> SpaceError {
    match error {
        ChangeError::Conflict => SpaceError::Conflict,
        ChangeError::NotCovered | ChangeError::Guard => SpaceError::NotMapped,
        ChangeError::OwnerDenied | ChangeError::PermissionDenied => SpaceError::PermissionDenied,
        ChangeError::Busy | ChangeError::Stale => SpaceError::Busy,
        ChangeError::PageLimit
        | ChangeError::RegionLimit
        | ChangeError::TransactionLimit
        | ChangeError::KeyExhausted => SpaceError::ReachLimit,
        ChangeError::AllocationFailed => SpaceError::NoFrame,
        _ => SpaceError::BadSegment,
    }
}

/// What the ledger's refusal means for the address space.
pub fn map_change_error(error: ChangeError) -> (r: SpaceError)
    ensures
        r == change_refusal(error),
{
    match error {
        ChangeError::Conflict => SpaceError::Conflict,
        ChangeError::NotCovered | ChangeError::Guard => SpaceError::NotMapped,
        ChangeError::OwnerDenied | ChangeError::PermissionDenied => SpaceError::PermissionDenied,
        ChangeError::Busy | ChangeError::Stale => SpaceError::Busy,
        ChangeError::PageLimit
        | ChangeError::RegionLimit
        | ChangeError::TransactionLimit
        | ChangeError::KeyExhausted => SpaceError::ReachLimit,
        ChangeError::AllocationFailed => SpaceError::NoFrame,
        ChangeError::BadLimits
        | ChangeError::Range
        | ChangeError::OutOfBounds
        | ChangeError::BackingOutOfRange
        | ChangeError::ObjectAuthorization
        | ChangeError::LeaseInvalid
        | ChangeError::LeaseTooLarge
        | ChangeError::PermitMismatch => SpaceError::BadSegment,
    }
}

/// How the ledger's refusal is reported to a caller.
pub fn public_change_error(error: ChangeError) -> (r: SystemCallError)
    ensures
        r == space_reported(change_refusal(error)),
{
    map_space_error(map_change_error(error))
}

/// Why the page table refused.
#[derive(Clone, Copy, Debug, PartialEq, Eq, Structural)]
pub enum MapError {
    Conflict,
    FrameExhausted,
    AllocationFailed,
    OutOfRange,
    InvalidFlags,
    NotMapped,
    ProtectionMismatch,
}

/// What the page table's refusal means for the address space.
pub fn map_table_error(error: MapError) -> (r: SpaceError)
    ensures
        r == match error {
            MapError::Conflict => SpaceError::Conflict,
            MapError::FrameExhausted | MapError::AllocationFailed => SpaceError::NoFrame,
            _ => SpaceError::BadSegment,
        },
{
    match error {
        MapError::Conflict => SpaceError::Conflict,
        MapError::FrameExhausted | MapError::AllocationFailed => SpaceError::NoFrame,
        MapError::OutOfRange
        | MapError::InvalidFlags
        | MapError::NotMapped
        | MapError::ProtectionMismatch => SpaceError::BadSegment,
    }
}

/// What a failure to fund pages means for the address space.
pub open spec fn fund_refusal(error: FundError) -> SpaceError {
    match error {
        FundError::PageLimit | FundError::ExtentLimit => SpaceError::ReachLimit,
        FundError::Quota(PoolError::QuotaExceeded) => SpaceError::QuotaExceeded,
        _ => SpaceError::NoFrame,
    }
}

/// What a failure to fund pages means for the address space.
pub fn map_funded_error(error: FundError) -> (r: SpaceError)
    ensures
        r == fund_refusal(error),
{
    match error {
        FundError::ZeroPages | FundError::InvalidClaim | FundError::Physical => {
            SpaceError::NoFrame
        },
        FundError::PageLimit | FundError::ExtentLimit => SpaceError::ReachLimit,
        FundError::Quota(PoolError::QuotaExceeded) => SpaceError::QuotaExceeded,
        FundError::Quota(_) => SpaceError::NoFrame,
    }
}

/// How a refusal is reported once the caller's arguments have been found good: a bad
/// segment is the kernel's own fault then.
pub open spec fn late_reported(error: SpaceError) -> SystemCallError {
    match error {
        SpaceError::BadSegment => SystemCallError::InternalError,
        _ => space_reported(error),
    }
}

/// How a refusal is reported once the caller's arguments have been found good.
pub fn post_validate_error(error: SpaceError) -> (r: SystemCallError)
    ensures
        r == late_reported(error),
{
    match error {
        SpaceError::BadSegment => SystemCallError::InternalError,
        _ => map_space_error(error),
    }
}

/// Every refusal of an address space is told apart: no two are reported alike.
pub proof fn refusals_stay_apart(a: SpaceError, b: SpaceError)
    ensures
        space_reported(a) == space_reported(b) ==> a == b,
        late_reported(a) == late_reported(b) ==> a == b,
        building_reported(a) == building_reported(b) ==> a == b,
{
}

/// The three ways of reporting differ in one refusal each: once the caller's arguments are good,
/// a bad segment is the kernel's fault, and to whoever builds a process an occupied range is an
/// address that cannot be used. Nothing else of the caller's is ever called the kernel's fault.
pub proof fn reports_differ_in_one_refusal(error: SpaceError)
    ensures
        late_reported(error) == space_reported(error) <==> !(error is BadSegment),
        building_reported(error) == space_reported(error) <==> !(error is Conflict),
        late_reported(error) == SystemCallError::InternalError <==> error is BadSegment,
        building_reported(error) == SystemCallError::InvalidAddress <==> error is Conflict,
        space_reported(error) != SystemCallError::InternalError,
        space_reported(error) == SystemCallError::OutOfMemory <==> error is NoFrame,
        space_reported(error) == SystemCallError::RightsDenied <==> error is PermissionDenied,
        space_reported(error) == SystemCallError::QuotaExceeded <==> error is QuotaExceeded,
        space_reported(error) == SystemCallError::ObjectBusy <==> error is Busy,
        space_reported(error) == SystemCallError::NotMapped <==> error is NotMapped,
{
}

/// What the ledger's refusals come to: an occupied range stays a conflict, want of memory stays
/// that, a limit stays a limit; what is not there, or only reserved, is not mapped; someone
/// else's region and a protection that is not allowed are denied; a change under way or overtaken
/// is busy. All else is a bad request. None is ever a question of quota or of binding.
pub proof fn ledger_refusals_keep_their_sense(error: ChangeError)
    ensures
        change_refusal(error) is Conflict <==> error is Conflict,
        change_refusal(error) is NoFrame <==> error is AllocationFailed,
        change_refusal(error) is NotMapped <==> error is NotCovered || error is Guard,
        change_refusal(error) is PermissionDenied <==> error is OwnerDenied
            || error is PermissionDenied,
        change_refusal(error) is Busy <==> error is Busy || error is Stale,
        change_refusal(error) is ReachLimit <==> error is PageLimit || error is RegionLimit
            || error is TransactionLimit || error is KeyExhausted,
        !(change_refusal(error) is QuotaExceeded) && !(change_refusal(error) is Unbound),
{
}

/// Pages that cannot be funded: only a pool without enough left is a question of quota, only the
/// two limits are limits, and all else is want of memory.
pub proof fn funding_refusals_keep_their_sense(error: FundError)
    ensures
        fund_refusal(error) is QuotaExceeded <==> error == FundError::Quota(
            PoolError::QuotaExceeded,
        ),
        fund_refusal(error) is ReachLimit <==> error is PageLimit || error is ExtentLimit,
        !(fund_refusal(error) is QuotaExceeded) && !(fund_refusal(error) is ReachLimit)
            ==> fund_refusal(error) is NoFrame,
{
}

} // verus!
