//! Regions of an address space, as its ledger tells of them.
use vstd::prelude::*;

use crate::error::SystemCallError;
use crate::memory_object::Protection;
use crate::process::PAGE_SIZE;

verus! {

/// A nonempty run of whole pages that does not wrap around.
#[derive(Clone, Copy, Debug, PartialEq, Eq, Structural)]
pub struct PageRange {
    /// Address of the first page.
    pub start: usize,
    pub pages: usize,
}

impl PageRange {
    pub open spec fn wf(self) -> bool {
        &&& self.start % PAGE_SIZE == 0
        &&& self.pages > 0
        &&& self.start + self.pages * PAGE_SIZE <= usize::MAX
    }

    /// How many bytes the run has.
    pub open spec fn spec_bytes(self) -> int {
        self.pages * PAGE_SIZE
    }

    /// How many bytes the run has.
    pub fn bytes(self) -> (r: usize)
        requires
            self.wf(),
        ensures
            r == self.spec_bytes(),
    {
        self.pages * PAGE_SIZE
    }
}

/// Address and length name a run of whole pages.
pub open spec fn names_pages(address: u64, bytes: u64) -> bool {
    address % PAGE_SIZE as u64 == 0 && bytes % PAGE_SIZE as u64 == 0 && bytes != 0 && address
        + bytes <= usize::MAX
}

/// The run of pages that a caller names by address and length.
pub fn public_page_range(address: u64, bytes: u64) -> (r: Result<PageRange, SystemCallError>)
    ensures
        r is Err ==> r == Err::<PageRange, _>(SystemCallError::IllegalArgument),
        r is Ok <==> names_pages(address, bytes),
        r matches Ok(range) ==> range.wf() && range.start == address && range.spec_bytes() == bytes,
{
    if address > usize::MAX as u64 || bytes > usize::MAX as u64 {
        return Err(SystemCallError::IllegalArgument);
    }
    let start: usize = address as usize;
    let length: usize = bytes as usize;
    if start % PAGE_SIZE != 0 || length % PAGE_SIZE != 0 || length == 0 {
        return Err(SystemCallError::IllegalArgument);
    }
    match start.checked_add(length) {
        None => Err(SystemCallError::IllegalArgument),
        Some(_) => Ok(PageRange { start, pages: length / PAGE_SIZE }),
    }
}

/// Who may take a region away again.
#[derive(Clone, Copy, Debug, PartialEq, Eq, Structural)]
pub enum RegionOwner {
    AddressSpace,
    /// Only the object that holds this lease.
    Lease(u64),
}

/// Where the bytes of a region come from.
#[derive(Clone, Copy, Debug, PartialEq, Eq, Structural)]
pub enum BackingView {
    /// Pages of the process itself.
    Anonymous { identity: u64, offset: usize },
    /// Pages of a memory object.
    Object { object: u64, offset: usize },
}

/// What a region is.
#[derive(Clone, Copy, Debug, PartialEq, Eq, Structural)]
pub enum RegionKind {
    /// Reserved, never mapped.
    Guard,
    Mapping { backing: BackingView, current: Protection, maximum: Protection },
}

/// A region of the ledger.
#[derive(Clone, Copy, Debug, PartialEq, Eq, Structural)]
pub struct Region {
    pub key: u64,
    pub range: PageRange,
    pub owner: RegionOwner,
    pub kind: RegionKind,
}

/// Whether the pages behind a region go when it goes.
#[derive(Clone, Copy, Debug, PartialEq, Eq, Structural)]
pub enum BackingRetire {
    Release,
    Keep,
}

/// A piece of a region that is on its way out.
#[derive(Clone, Copy, Debug, PartialEq, Eq, Structural)]
pub struct RetiringFragment {
    pub range: PageRange,
    pub owner: RegionOwner,
    pub kind: RegionKind,
    pub backing_retire: BackingRetire,
}

/// A view of an object in an address space, as its owner outside remembers it.
#[derive(Clone, Copy, Debug, PartialEq, Eq, Structural)]
pub struct ObjectMappingLease {
    pub lease: u64,
    pub region: u64,
    pub range: PageRange,
    pub object: u64,
    pub object_offset: usize,
    pub protection: Protection,
}

impl ObjectMappingLease {
    /// What the ledger says of a region with this lease.
    pub open spec fn kind(self) -> RegionKind {
        RegionKind::Mapping {
            backing: BackingView::Object { object: self.object, offset: self.object_offset },
            current: self.protection,
            maximum: self.protection,
        }
    }

    /// The fragment is the view that the lease remembers.
    pub open spec fn is_fragment(self, fragment: RetiringFragment) -> bool {
        &&& fragment.range == self.range
        &&& fragment.owner == RegionOwner::Lease(self.lease)
        &&& fragment.kind == self.kind()
    }

    /// The region is the view that the lease remembers.
    pub open spec fn is_region(self, region: Region) -> bool {
        &&& region.key == self.region
        &&& region.range == self.range
        &&& region.owner == RegionOwner::Lease(self.lease)
        &&& region.kind == self.kind()
    }

    /// Whether the kind is that of a view with this lease.
    fn matches_kind(self, kind: RegionKind) -> (r: bool)
        ensures
            r == (kind == self.kind()),
    {
        match kind {
            RegionKind::Mapping {
                backing: BackingView::Object { object, offset },
                current,
                maximum,
            } => object == self.object && offset == self.object_offset && current
                == self.protection && maximum == self.protection,
            _ => false,
        }
    }

    /// Whether the fragment is the view that the lease remembers.
    pub fn matches_fragment(self, fragment: RetiringFragment) -> (r: bool)
        ensures
            r == self.is_fragment(fragment),
    {
        fragment.range == self.range && fragment.owner == RegionOwner::Lease(self.lease)
            && self.matches_kind(fragment.kind)
    }

    /// Whether the region is the view that the lease remembers.
    pub fn matches_region(self, region: Region) -> (r: bool)
        ensures
            r == self.is_region(region),
    {
        region.key == self.region && region.range == self.range && region.owner
            == RegionOwner::Lease(self.lease) && self.matches_kind(region.kind)
    }
}

/// Address and length name a run of pages exactly if both are multiples of a page, the length
/// is not zero and the end can be addressed.
pub proof fn page_runs_have_whole_pages(address: u64, bytes: u64)
    ensures
        names_pages(address, bytes) <==> {
            &&& address % 4096 == 0 && bytes % 4096 == 0
            &&& bytes >= 4096
            &&& address + bytes <= usize::MAX
        },
{
}

/// A run has as many bytes as its pages have, and no two runs have the same first page and as
/// many bytes.
pub proof fn runs_are_their_bytes(a: PageRange, b: PageRange)
    ensures
        a.spec_bytes() == 4096 * a.pages,
        a.start == b.start && a.spec_bytes() == b.spec_bytes() ==> a == b,
{
}

/// A region belongs to one lease, and a lease to one region: whoever recognises a region as its
/// own remembers all of it.
pub proof fn regions_have_one_lease(a: ObjectMappingLease, b: ObjectMappingLease, region: Region)
    requires
        a.is_region(region),
    ensures
        b.is_region(region) ==> a == b,
        forall|other: Region| a.is_region(other) ==> other == region,
        region.key == a.region && region.range == a.range,
        region.owner == RegionOwner::Lease(a.lease),
        region.kind matches RegionKind::Mapping { backing, current, maximum } && current
            == a.protection && maximum == a.protection && (
        backing matches BackingView::Object { object, offset } && object == a.object && offset
            == a.object_offset),
{
}

/// A piece on its way out belongs to one lease, but for the number of its region: whoever
/// recognises it remembers where it was, what it showed and how, and which lease it had.
pub proof fn pieces_have_one_lease(
    a: ObjectMappingLease,
    b: ObjectMappingLease,
    piece: RetiringFragment,
)
    requires
        a.is_fragment(piece),
    ensures
        b.is_fragment(piece) ==> (ObjectMappingLease { region: b.region, ..a }) == b,
        piece.range == a.range && piece.owner == RegionOwner::Lease(a.lease),
        piece.kind matches RegionKind::Mapping { backing, current, maximum } && current
            == a.protection && maximum == a.protection && (
        backing matches BackingView::Object { object, offset } && object == a.object && offset
            == a.object_offset),
{
}

} // verus!
