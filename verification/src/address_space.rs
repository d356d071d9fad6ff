//! What an address space keeps beside its ledger and its page table: the backings it
//! owns, the objects it holds, the identities it hands out, and which change is under way.
use vstd::prelude::*;

use crate::backing;
use crate::backing::{BackingExtent, BackingState, Holding, InstallSpan, OwnedBacking};
use crate::error::SystemCallError;
use crate::map_intent;
use crate::map_intent::{
    AnonymousClass, LedgerChange, LedgerRequest, MapAuthority, MapBacking, MapIntent, MapPlacement,
    ProcessMapFlags, UserSpace,
};
use crate::memory_object::Protection;
use crate::process::PAGE_SIZE;
use crate::region::{
    BackingView, ObjectMappingLease, PageRange, Region, RegionKind, RegionOwner, RetiringFragment,
};
use crate::space;
use crate::space::{ChangeError, MapError, SpaceError};
use crate::view_permits::PermitRequirement;

verus! {

/// An object that an address space holds, however many views of it there are.
#[derive(Clone, Copy, Debug, PartialEq, Eq, Structural)]
pub struct ObjectView {
    pub object: u64,
    /// What is held.
    pub core: u64,
}

/// What an address space keeps.
pub struct BoundAddressSpace {
    table_transaction_active: bool,
    backings: Vec<OwnedBacking>,
    views: Vec<ObjectView>,
    next_backing: u64,
    next_lease: u64,
    image_end: usize,
}

/// What an address space keeps, as a value.
#[verifier::ext_equal]
pub struct SpaceView {
    /// A change is under way; there is only one at a time.
    pub busy: bool,
    /// By ascending identity.
    pub backings: Seq<BackingState>,
    /// By ascending object.
    pub views: Seq<ObjectView>,
    pub next_backing: u64,
    pub next_lease: u64,
    /// How far the image reaches while the process is built.
    pub image_end: usize,
}

impl View for BoundAddressSpace {
    type V = SpaceView;

    closed spec fn view(&self) -> SpaceView {
        SpaceView {
            busy: self.table_transaction_active,
            backings: self.backings@.map_values(|b: OwnedBacking| b@),
            views: self.views@,
            next_backing: self.next_backing,
            next_lease: self.next_lease,
            image_end: self.image_end,
        }
    }
}

/// The objects stand in order, each once.
pub open spec fn views_wf(views: Seq<ObjectView>) -> bool {
    forall|i: int, j: int|
        0 <= i < j < views.len() ==> (#[trigger] views[i]).object < (#[trigger] views[j]).object
}

/// The backings stand in order, each once, and none is empty.
pub open spec fn backings_wf(backings: Seq<BackingState>, next: u64) -> bool {
    &&& forall|i: int, j: int|
        0 <= i < j < backings.len() ==> (#[trigger] backings[i]).identity < (
        #[trigger] backings[j]).identity
    &&& forall|i: int|
        0 <= i < backings.len() ==> (#[trigger] backings[i]).wf() && backings[i].extents.len() > 0
            && backings[i].identity < next
}

/// Entry `i` is that of `object`.
pub open spec fn view_at(views: Seq<ObjectView>, i: int, object: u64) -> bool {
    0 <= i < views.len() && views[i].object == object
}

/// The object is held.
pub open spec fn holds_object(views: Seq<ObjectView>, object: u64) -> bool {
    exists|i: int| view_at(views, i, object)
}

/// A region is a view of the object.
pub open spec fn shows(region: Region, object: u64) -> bool {
    region.kind matches RegionKind::Mapping { backing: BackingView::Object { object: o, .. }, .. }
        && o == object
}

/// Some region is a view of the object.
pub open spec fn referenced(regions: Seq<Region>, object: u64) -> bool {
    exists|i: int| 0 <= i < regions.len() && shows(#[trigger] regions[i], object)
}

/// Whether the region is a view of the object.
fn region_shows(region: Region, object: u64) -> (r: bool)
    ensures
        r == shows(region, object),
{
    match region.kind {
        RegionKind::Mapping { backing: BackingView::Object { object: found, .. }, .. } => found
            == object,
        _ => false,
    }
}

impl SpaceView {
    /// What every operation keeps.
    pub open spec fn wf(self) -> bool {
        &&& views_wf(self.views)
        &&& backings_wf(self.backings, self.next_backing)
    }

    /// The same with the identity of a backing handed out.
    pub open spec fn backing_minted(self) -> SpaceView {
        SpaceView { next_backing: (self.next_backing + 1) as u64, ..self }
    }

    /// The same with a lease handed out.
    pub open spec fn lease_minted(self) -> SpaceView {
        SpaceView { next_lease: (self.next_lease + 1) as u64, ..self }
    }

    /// An identity can be handed out.
    pub open spec fn mintable(next: u64) -> bool {
        0 < next < u64::MAX
    }
}

impl BoundAddressSpace {
    pub closed spec fn wf(&self) -> bool {
        &&& self@.wf()
        &&& forall|i: int| 0 <= i < self.backings@.len() ==> (#[trigger] self.backings@[i]).wf()
    }

    pub proof fn wf_view(&self)
        requires
            self.wf(),
        ensures
            self@.wf(),
    {
    }

    /// A new address space.
    pub fn new() -> (r: BoundAddressSpace)
        ensures
            r.wf(),
            r@ == (SpaceView {
                busy: false,
                backings: Seq::empty(),
                views: Seq::empty(),
                next_backing: 1,
                next_lease: 1,
                image_end: 0,
            }),
    {
        let space = BoundAddressSpace {
            table_transaction_active: false,
            backings: Vec::new(),
            views: Vec::new(),
            next_backing: 1,
            next_lease: 1,
            image_end: 0,
        };
        assert(space@.backings =~= Seq::empty());
        space
    }

    pub fn image_end(&self) -> (r: usize)
        ensures
            r == self@.image_end,
    {
        self.image_end
    }

    /// The image is known to reach `end`, at least.
    pub fn extend_image(&mut self, end: usize)
        requires
            old(self).wf(),
        ensures
            final(self).wf(),
            final(self)@ == (SpaceView {
                image_end: if old(self)@.image_end < end {
                    end
                } else {
                    old(self)@.image_end
                },
                ..old(self)@
            }),
    {
        if self.image_end < end {
            let ghost before = self@;
            self.image_end = end;
            assert(self@.backings =~= before.backings);
        }
    }

    /// Refuses if a change is under way.
    pub fn ensure_table_transaction_available(&self) -> (r: Result<(), SpaceError>)
        ensures
            r == if self@.busy {
                Err::<(), _>(SpaceError::Busy)
            } else {
                Ok(())
            },
    {
        if self.table_transaction_active {
            Err(SpaceError::Busy)
        } else {
            Ok(())
        }
    }

    /// A change is under way from now on.
    fn mark_table_transaction(&mut self)
        requires
            old(self).wf(),
            !old(self)@.busy,
        ensures
            final(self).wf(),
            final(self)@ == (SpaceView { busy: true, ..old(self)@ }),
    {
        self.table_transaction_active = true;
    }

    /// No change is under way any more.
    pub fn clear_table_transaction(&mut self)
        requires
            old(self).wf(),
        ensures
            final(self).wf(),
            final(self)@ == (SpaceView { busy: false, ..old(self)@ }),
    {
        self.table_transaction_active = false;
    }

    /// Hands out the identity of a backing; they are not used again.
    pub fn mint_backing(&mut self) -> (r: Result<u64, SpaceError>)
        requires
            old(self).wf(),
        ensures
            final(self).wf(),
            r == if SpaceView::mintable(old(self)@.next_backing) {
                Ok::<u64, SpaceError>(old(self)@.next_backing)
            } else {
                Err(SpaceError::NoFrame)
            },
            final(self)@ == if r is Ok {
                old(self)@.backing_minted()
            } else {
                old(self)@
            },
    {
        let identity: u64 = self.next_backing;
        if identity == 0 {
            return Err(SpaceError::NoFrame);
        }
        match identity.checked_add(1) {
            None => Err(SpaceError::NoFrame),
            Some(next) => {
                let ghost before = self@;
                self.next_backing = next;
                proof {
                    assert(self@.backings =~= before.backings);
                    assert forall|i: int| 0 <= i < self@.backings.len() implies (
                    #[trigger] self@.backings[i]).identity < next by {
                        assert(before.backings[i].identity < before.next_backing);
                    }
                }
                Ok(identity)
            },
        }
    }

    /// Hands out a lease; they are not used again.
    pub fn mint_lease(&mut self) -> (r: Result<u64, SpaceError>)
        requires
            old(self).wf(),
        ensures
            final(self).wf(),
            r == if SpaceView::mintable(old(self)@.next_lease) {
                Ok::<u64, SpaceError>(old(self)@.next_lease)
            } else {
                Err(SpaceError::NoFrame)
            },
            final(self)@ == if r is Ok {
                old(self)@.lease_minted()
            } else {
                old(self)@
            },
    {
        let identity: u64 = self.next_lease;
        if identity == 0 {
            return Err(SpaceError::NoFrame);
        }
        match identity.checked_add(1) {
            None => Err(SpaceError::NoFrame),
            Some(next) => {
                self.next_lease = next;
                Ok(identity)
            },
        }
    }

    /// Where the object stands among those that are held, or where it would stand.
    fn find_view(&self, object: u64) -> (r: Result<usize, usize>)
        requires
            self.wf(),
        ensures
            match r {
                Ok(i) => view_at(self@.views, i as int, object),
                Err(i) => {
                    &&& i <= self@.views.len()
                    &&& !holds_object(self@.views, object)
                    &&& forall|k: int| 0 <= k < i ==> (#[trigger] self@.views[k]).object < object
                    &&& forall|k: int|
                        i <= k < self@.views.len() ==> object < (#[trigger] self@.views[k]).object
                },
            },
    {
        let mut low: usize = 0;
        let mut high: usize = self.views.len();
        while low < high
            invariant
                self.wf(),
                low <= high <= self@.views.len(),
                forall|k: int| 0 <= k < low ==> (#[trigger] self@.views[k]).object < object,
                forall|k: int|
                    high <= k < self@.views.len() ==> object < (#[trigger] self@.views[k]).object,
            decreases high - low,
        {
            let middle: usize = low + (high - low) / 2;
            let found: u64 = self.views[middle].object;
            if found == object {
                return Ok(middle);
            }
            if found < object {
                low = middle + 1;
            } else {
                high = middle;
            }
        }
        proof {
            assert forall|i: int| !view_at(self@.views, i, object) by {}
        }
        Err(low)
    }

    /// Holds an object from now on. If it is held already nothing changes: `false` says
    /// that what was prepared is given back.
    pub fn install_view_owner(&mut self, object: u64, core: u64) -> (r: bool)
        requires
            old(self).wf(),
        ensures
            final(self).wf(),
            r == !holds_object(old(self)@.views, object),
            !r ==> final(self)@ == old(self)@,
            r ==> exists|i: int|
                0 <= i <= old(self)@.views.len() && final(self)@ == (SpaceView {
                    views: #[trigger] old(self)@.views.insert(i, ObjectView { object, core }),
                    ..old(self)@
                }),
    {
        match self.find_view(object) {
            Ok(index) => {
                assert(view_at(self@.views, index as int, object));
                false
            },
            Err(index) => {
                let ghost before = self@;
                self.views.insert(index, ObjectView { object, core });
                proof {
                    let after = before.views.insert(index as int, ObjectView { object, core });
                    assert(self@ =~= (SpaceView { views: after, ..before }));
                    assert forall|i: int, j: int| 0 <= i < j < after.len() implies (
                    #[trigger] after[i]).object < (#[trigger] after[j]).object by {
                        let k = if i < index {
                            i
                        } else {
                            i - 1
                        };
                        let l = if j < index {
                            j
                        } else {
                            j - 1
                        };
                        if i != index && j != index {
                            assert(before.views[k].object < before.views[l].object);
                        }
                    }
                }
                true
            },
        }
    }

    /// A view of the object is gone: if the ledger has no other, what was held of the
    /// object is handed out.
    pub fn release_view_region(&mut self, object: u64, regions: &Vec<Region>) -> (r: Option<u64>)
        requires
            old(self).wf(),
        ensures
            final(self).wf(),
            r is Some <==> holds_object(old(self)@.views, object) && !referenced(regions@, object),
            r is None ==> final(self)@ == old(self)@,
            r matches Some(core) ==> exists|i: int| #[trigger]
                view_at(old(self)@.views, i, object) && core == old(self)@.views[i].core
                    && final(self)@ == (SpaceView {
                    views: old(self)@.views.remove(i),
                    ..old(self)@
                }),
            r is Some ==> !holds_object(final(self)@.views, object),
    {
        let index: usize = match self.find_view(object) {
            Err(_) => {
                return None;
            },
            Ok(index) => index,
        };
        assert(view_at(self@.views, index as int, object));
        let mut next: usize = 0;
        while next < regions.len()
            invariant
                next <= regions@.len(),
                self@ == old(self)@,
                self.wf(),
                forall|i: int| 0 <= i < next ==> !shows(#[trigger] regions@[i], object),
            decreases regions@.len() - next,
        {
            if region_shows(regions[next], object) {
                assert(shows(regions@[next as int], object));
                return None;
            }
            next = next + 1;
        }
        let ghost before = self@;
        let view = self.views.remove(index);
        proof {
            let after = before.views.remove(index as int);
            assert(self@ =~= (SpaceView { views: after, ..before }));
            assert forall|i: int, j: int| 0 <= i < j < after.len() implies (
            #[trigger] after[i]).object < (#[trigger] after[j]).object by {
                let k = if i < index {
                    i
                } else {
                    i + 1
                };
                let l = if j < index {
                    j
                } else {
                    j + 1
                };
                assert(before.views[k].object < before.views[l].object);
            }
            assert forall|i: int| !view_at(after, i, object) by {
                if 0 <= i < after.len() {
                    let k = if i < index {
                        i
                    } else {
                        i + 1
                    };
                    assert(after[i] == before.views[k]);
                    if k < index {
                        assert(before.views[k].object < before.views[index as int].object);
                    } else {
                        assert(before.views[index as int].object < before.views[k].object);
                    }
                }
            }
        }
        Some(view.core)
    }

    /// What is held of the object.
    pub fn view_core(&self, object: u64) -> (r: u64)
        requires
            self.wf(),
            holds_object(self@.views, object),
        ensures
            exists|i: int| #[trigger]
                view_at(self@.views, i, object) && r == self@.views[i].core,
    {
        let index: usize = self.find_view(object).unwrap();
        assert(view_at(self@.views, index as int, object));
        self.views[index].core
    }

    /// Where the backing stands.
    fn find_backing(&self, identity: u64) -> (r: usize)
        requires
            self.wf(),
            exists|i: int|
                0 <= i < self@.backings.len() && (#[trigger] self@.backings[i]).identity
                    == identity,
        ensures
            r < self@.backings.len(),
            self@.backings[r as int].identity == identity,
    {
        let ghost at = choose|i: int|
            0 <= i < self@.backings.len() && (#[trigger] self@.backings[i]).identity == identity;
        let mut low: usize = 0;
        let mut high: usize = self.backings.len();
        loop
            invariant
                self.wf(),
                low <= at < high <= self@.backings.len(),
                self@.backings[at].identity == identity,
            decreases high - low,
        {
            let middle: usize = low + (high - low) / 2;
            assert(self@.backings[middle as int] == self.backings@[middle as int]@);
            let found: u64 = self.backings[middle].identity();
            if found == identity {
                return middle;
            }
            proof {
                if middle < at {
                    assert(self@.backings[middle as int].identity < self@.backings[at].identity);
                } else if at < middle {
                    assert(self@.backings[at].identity < self@.backings[middle as int].identity);
                }
            }
            if found < identity {
                low = middle + 1;
            } else {
                high = middle;
            }
        }
    }

    /// Takes one run of frames from the backing `identity`, as
    /// [`OwnedBacking::release_one`] does. A backing that has nothing left goes.
    pub fn retire_backing_one(
        &mut self,
        identity: u64,
        offset: usize,
        bytes: usize,
        permits: &mut usize,
    ) -> (r: (BackingExtent, usize))
        requires
            old(self).wf(),
            offset % PAGE_SIZE == 0,
            bytes % PAGE_SIZE == 0,
            bytes > 0,
            exists|i: int| #[trigger]
                releases(old(self)@.backings, i, identity, offset, bytes, *old(permits)),
        ensures
            final(self).wf(),
            exists|i: int| #[trigger]
                releases(old(self)@.backings, i, identity, offset, bytes, *old(permits)) && {
                    let before = old(self)@.backings[i];
                    let start = (offset / PAGE_SIZE) as int;
                    let e = before.extents[backing::holder(before.extents, start)];
                    let end = backing::least(e.end(), start + bytes / PAGE_SIZE);
                    &&& r.1 == end - start
                    &&& r.0 == (BackingExtent {
                        offset_pages: start as usize,
                        base: e.frame(start) as usize,
                        pages: r.1,
                        holding: e.holding,
                    })
                    &&& *final(permits) == *old(permits) - backing::cuts(e, start, end)
                    &&& without_pages(old(self)@, final(self)@, i, start, end)
                },
    {
        let ghost before = self@;
        let ghost concrete = self.backings@;
        let ghost at = choose|i: int| #[trigger]
            releases(before.backings, i, identity, offset, bytes, *permits);
        assert(releases(before.backings, at, identity, offset, bytes, *permits));
        assert(before.backings[at].identity == identity);
        let index: usize = self.find_backing(identity);
        proof {
            if at < index {
                assert(before.backings[at].identity < before.backings[index as int].identity);
            } else if index < at {
                assert(before.backings[index as int].identity < before.backings[at].identity);
            }
            assert(self@.backings[index as int] == self.backings@[index as int]@);
        }
        let mut backing = self.backings.remove(index);
        let (extent, pages) = backing.release_one(offset, bytes, permits);
        let empty = backing.is_empty();
        let ghost left = backing@;
        proof {
            backing.wf_view();
        }
        if !empty {
            self.backings.insert(index, backing);
            assert(self@.backings =~= before.backings.update(index as int, left));
        } else {
            assert(self@.backings =~= before.backings.remove(index as int));
        }
        proof {
            let after = self@.backings;
            let shift = if empty {
                1int
            } else {
                0
            };
            assert forall|i: int| 0 <= i < after.len() implies (#[trigger] after[i]).wf()
                && after[i].extents.len() > 0 && after[i].identity < before.next_backing by {
                let k = if i < index {
                    i
                } else {
                    i + shift
                };
                assert(before.backings[k].wf() && before.backings[k].extents.len() > 0
                    && before.backings[k].identity < before.next_backing);
            }
            assert forall|i: int, j: int| 0 <= i < j < after.len() implies (
            #[trigger] after[i]).identity < (#[trigger] after[j]).identity by {
                let k = if i < index {
                    i
                } else {
                    i + shift
                };
                let l = if j < index {
                    j
                } else {
                    j + shift
                };
                assert(before.backings[k].identity < before.backings[l].identity);
            }
            assert forall|i: int| 0 <= i < self.backings@.len() implies (
            #[trigger] self.backings@[i]).wf() by {
                let k = if i < index {
                    i
                } else {
                    i + shift
                };
                assert(concrete[k].wf());
            }
            assert(self@.wf());
            assert(self.wf());
            let start = (offset / PAGE_SIZE) as int;
            let e = before.backings[at].extents[backing::holder(
                before.backings[at].extents,
                start,
            )];
            let end = backing::least(e.end(), start + bytes / PAGE_SIZE);
            assert(left == before.backings[at].without(start, end));
            assert(without_pages(before, self@, at, start, end));
        }
        (extent, pages)
    }
}

/// A run of frames can be taken from backing `i`, which is `identity`.
pub open spec fn releases(
    backings: Seq<BackingState>,
    i: int,
    identity: u64,
    offset: usize,
    bytes: usize,
    permits: usize,
) -> bool {
    &&& 0 <= i < backings.len()
    &&& backings[i].identity == identity
    &&& offset / PAGE_SIZE + bytes / PAGE_SIZE <= backings[i].pages
    &&& backing::owned(backings[i].extents, (offset / PAGE_SIZE) as int)
    &&& {
        let start = (offset / PAGE_SIZE) as int;
        let e = backings[i].extents[backing::holder(backings[i].extents, start)];
        let end = backing::least(e.end(), start + bytes / PAGE_SIZE);
        &&& permits >= backing::cuts(e, start, end)
        &&& backing::cuts(e, start, end) > 0 ==> e.holding != backing::Holding::BootBorrowed
    }
}

/// The same address space, but for pages `start` up to `end` of backing `i`, which are
/// not owned any more.
pub open spec fn without_pages(
    before: SpaceView,
    after: SpaceView,
    i: int,
    start: int,
    end: int,
) -> bool {
    let left = before.backings[i].without(start, end);
    after == (SpaceView {
        backings: if left.extents.len() == 0 {
            before.backings.remove(i)
        } else {
            before.backings.update(i, left)
        },
        ..before
    })
}

/// The object that the fragment is a view of, if it is one.
pub open spec fn fragment_object(fragment: RetiringFragment) -> Option<u64> {
    match fragment.kind {
        RegionKind::Mapping { backing: BackingView::Object { object, .. }, .. } => Some(object),
        _ => None,
    }
}

/// The object that the fragment is a view of, if it is one.
pub fn object_of(fragment: RetiringFragment) -> (r: Option<u64>)
    ensures
        r == fragment_object(fragment),
{
    match fragment.kind {
        RegionKind::Mapping { backing: BackingView::Object { object, .. }, .. } => Some(object),
        _ => None,
    }
}

/// The objects that the fragments are views of, each once, in the order in which they
/// come up.
pub open spec fn objects_of(fragments: Seq<RetiringFragment>) -> Seq<u64>
    decreases fragments.len(),
{
    if fragments.len() == 0 {
        Seq::empty()
    } else {
        let before = objects_of(fragments.drop_last());
        match fragment_object(fragments.last()) {
            Some(object) => if before.contains(object) {
                before
            } else {
                before.push(object)
            },
            None => before,
        }
    }
}

/// The list names these objects, each with what is held of it.
pub open spec fn names(list: Seq<ObjectView>, objects: Seq<u64>, views: Seq<ObjectView>) -> bool {
    &&& list.len() == objects.len()
    &&& forall|i: int| 0 <= i < list.len() ==> (#[trigger] list[i]).object == objects[i]
    &&& forall|i: int| 0 <= i < list.len() ==> views.contains(#[trigger] list[i])
}

impl BoundAddressSpace {
    /// The objects that a change takes views of away, each once, with what is held of it.
    fn retiring_views(&self, fragments: &Vec<RetiringFragment>) -> (r: Vec<ObjectView>)
        requires
            self.wf(),
            forall|i: int|
                0 <= i < fragments@.len() && fragment_object(#[trigger] fragments@[i]) is Some
                    ==> holds_object(self@.views, fragment_object(fragments@[i])->0),
        ensures
            names(r@, objects_of(fragments@), self@.views),
    {
        let mut list: Vec<ObjectView> = Vec::new();
        let mut index: usize = 0;
        assert(fragments@.take(0) =~= Seq::empty());
        while index < fragments.len()
            invariant
                self.wf(),
                forall|i: int|
                    0 <= i < fragments@.len() && fragment_object(#[trigger] fragments@[i]) is Some
                        ==> holds_object(self@.views, fragment_object(fragments@[i])->0),
                index <= fragments@.len(),
                names(list@, objects_of(fragments@.take(index as int)), self@.views),
            decreases fragments@.len() - index,
        {
            let fragment = fragments[index];
            let ghost sofar = objects_of(fragments@.take(index as int));
            proof {
                let next = fragments@.take(index + 1);
                assert(next.drop_last() =~= fragments@.take(index as int));
                assert(next.last() == fragment);
                assert(fragments@[index as int] == fragment);
            }
            match object_of(fragment) {
                Some(object) => {
                    let mut known: bool = false;
                    let mut k: usize = 0;
                    while k < list.len()
                        invariant
                            k <= list@.len(),
                            names(list@, sofar, self@.views),
                            known ==> sofar.contains(object),
                            !known ==> forall|i: int| 0 <= i < k ==> #[trigger] sofar[i] != object,
                        decreases list@.len() - k,
                    {
                        if list[k].object == object {
                            known = true;
                            assert(list@[k as int].object == sofar[k as int]);
                            assert(sofar.contains(object));
                        } else {
                            assert(list@[k as int].object == sofar[k as int]);
                        }
                        k = k + 1;
                    }
                    if !known {
                        assert(holds_object(self@.views, object));
                        let at: usize = self.find_view(object).unwrap();
                        assert(self@.views.contains(self@.views[at as int]));
                        list.push(self.views[at]);
                    }
                },
                None => {},
            }
            index = index + 1;
        }
        assert(fragments@.take(index as int) =~= fragments@);
        list
    }

    /// The point of no return of a change: the backing and the object that it brings are
    /// entered, the image reaches as far as it says, and the objects of which it takes
    /// views away are told.
    pub fn commit_change(
        &mut self,
        brings: Option<OwnedBacking>,
        view: Option<ObjectView>,
        image_end: Option<usize>,
        fragments: &Vec<RetiringFragment>,
    ) -> (r: Vec<ObjectView>)
        requires
            old(self).wf(),
            old(self)@.busy,
            brings matches Some(b) ==> b.wf() && b@.extents.len() > 0 && b@.identity < old(
                self,
            )@.next_backing && forall|i: int|
                0 <= i < old(self)@.backings.len() ==> (#[trigger] old(self)@.backings[i]).identity
                    < b@.identity,
            forall|i: int|
                0 <= i < fragments@.len() && fragment_object(#[trigger] fragments@[i]) is Some
                    ==> holds_object(old(self)@.views, fragment_object(fragments@[i])->0),
        ensures
            final(self).wf(),
            !final(self)@.busy,
            final(self)@.next_backing == old(self)@.next_backing,
            final(self)@.next_lease == old(self)@.next_lease,
            final(self)@.backings == match brings {
                Some(b) => old(self)@.backings.push(b@),
                None => old(self)@.backings,
            },
            final(self)@.image_end == match image_end {
                Some(end) => if old(self)@.image_end < end {
                    end
                } else {
                    old(self)@.image_end
                },
                None => old(self)@.image_end,
            },
            match view {
                Some(v) => {
                    &&& holds_object(old(self)@.views, v.object) ==> final(self)@.views == old(
                        self,
                    )@.views
                    &&& !holds_object(old(self)@.views, v.object) ==> exists|i: int|
                        0 <= i <= old(self)@.views.len() && final(self)@.views == #[trigger] old(
                            self,
                        )@.views.insert(i, v)
                },
                None => final(self)@.views == old(self)@.views,
            },
            names(r@, objects_of(fragments@), old(self)@.views),
    {
        let ghost before = self@;
        let ghost concrete = self.backings@;
        self.clear_table_transaction();
        let list = self.retiring_views(fragments);
        match brings {
            Some(backing) => {
                proof {
                    backing.wf_view();
                }
                let ghost current = self.backings@;
                let ghost state = self@;
                self.backings.push(backing);
                proof {
                    assert(self@.backings =~= state.backings.push(backing@));
                    assert(state.backings =~= before.backings);
                    let after = self@.backings;
                    assert forall|i: int| 0 <= i < after.len() implies (#[trigger] after[i]).wf()
                        && after[i].extents.len() > 0 && after[i].identity
                        < before.next_backing by {
                        if i < before.backings.len() {
                            assert(before.backings[i].wf() && before.backings[i].extents.len() > 0
                                && before.backings[i].identity < before.next_backing);
                        }
                    }
                    assert forall|i: int, j: int| 0 <= i < j < after.len() implies (
                    #[trigger] after[i]).identity < (#[trigger] after[j]).identity by {
                        assert(before.backings[i].identity < backing@.identity);
                        if j < before.backings.len() {
                            assert(before.backings[i].identity < before.backings[j].identity);
                        }
                    }
                    assert forall|i: int| 0 <= i < self.backings@.len() implies (
                    #[trigger] self.backings@[i]).wf() by {
                        if i < current.len() {
                            assert(current[i].wf());
                        }
                    }
                }
            },
            None => {},
        }
        match view {
            Some(prepared) => {
                self.install_view_owner(prepared.object, prepared.core);
            },
            None => {},
        }
        match image_end {
            Some(end) => {
                if self.image_end < end {
                    let ghost state = self@;
                    self.image_end = end;
                    assert(self@.backings =~= state.backings);
                }
            },
            None => {},
        }
        list
    }
}

/// Run `i` is the first that is lent.
pub open spec fn lent_at(extents: Seq<BackingExtent>, i: int) -> bool {
    &&& 0 <= i < extents.len()
    &&& extents[i].holding == Holding::BootBorrowed
    &&& forall|k: int| 0 <= k < i ==> (#[trigger] extents[k]).holding != Holding::BootBorrowed
}

/// The backings with the lent run `i` of the last of them owned.
pub open spec fn lent_owned(backings: Seq<BackingState>, i: int) -> Seq<BackingState> {
    let last = backings.last();
    backings.update(
        backings.len() - 1,
        BackingState {
            extents: last.extents.update(
                i,
                BackingExtent { holding: Holding::Boot, ..last.extents[i] },
            ),
            ..last
        },
    )
}

impl BoundAddressSpace {
    /// The backing entered last gets the frames for good that were lent to it, which have to
    /// be the very same.
    pub fn install_bootstrap_funding(&mut self, base: usize, pages: usize)
        requires
            old(self).wf(),
            old(self)@.backings.len() > 0,
            exists|i: int| #[trigger] lent_at(old(self)@.backings.last().extents, i),
            forall|i: int| #[trigger]
                lent_at(old(self)@.backings.last().extents, i) ==> old(
                    self,
                )@.backings.last().extents[i].base == base && old(
                    self,
                )@.backings.last().extents[i].pages == pages,
        ensures
            final(self).wf(),
            exists|i: int| #[trigger]
                lent_at(old(self)@.backings.last().extents, i) && final(self)@ == (SpaceView {
                    backings: lent_owned(old(self)@.backings, i),
                    ..old(self)@
                }),
    {
        let ghost before = self@;
        let ghost concrete = self.backings@;
        let last: usize = self.backings.len() - 1;
        assert(before.backings.last() == self.backings@[last as int]@);
        match self.backings[last].borrowed() {
            None => {
                proof {
                    let i = choose|i: int| #[trigger] lent_at(before.backings.last().extents, i);
                    assert(lent_at(before.backings.last().extents, i));
                }
            },
            Some(index) => {
                assert(lent_at(before.backings.last().extents, index as int));
                self.backings[last].install_bootstrap_funding(index, base, pages);
                proof {
                    self.backings@[last as int].wf_view();
                    assert(self@.backings =~= lent_owned(before.backings, index as int));
                    assert forall|i: int| 0 <= i < self@.backings.len() implies (
                    #[trigger] self@.backings[i]).wf() && self@.backings[i].extents.len() > 0
                        && self@.backings[i].identity < self@.next_backing by {
                        assert(before.backings[i].wf() && before.backings[i].extents.len() > 0
                            && before.backings[i].identity < before.next_backing);
                    }
                    assert forall|i: int, j: int| 0 <= i < j < self@.backings.len() implies (
                    #[trigger] self@.backings[i]).identity < (
                    #[trigger] self@.backings[j]).identity by {
                        assert(before.backings[i].identity < before.backings[j].identity);
                    }
                    assert forall|i: int| 0 <= i < self.backings@.len() implies (
                    #[trigger] self.backings@[i]).wf() by {
                        assert(concrete[i].wf());
                    }
                }
            },
        }
    }
}

/// Where a mapping was placed.
#[derive(Clone, Copy, Debug, PartialEq, Eq, Structural)]
pub struct MapLayout {
    pub usable: PageRange,
    /// The usable pages with their guards.
    pub reservation: PageRange,
}

/// How planning a change failed.
#[derive(Debug)]
pub struct PlanFailure<E> {
    pub error: E,
    /// The reservation in the ledger is to be rolled back.
    pub roll_back: bool,
}

/// What a plan for anonymous memory has come to.
#[derive(Clone, Copy, Debug, PartialEq, Eq, Structural)]
pub struct AnonymousPlan {
    /// The identity of the backing.
    pub identity: u64,
    /// What the ledger was asked for.
    pub request: LedgerRequest,
    pub layout: MapLayout,
}

/// What a plan for a view of an object has come to.
pub struct ObjectPlan {
    /// What the ledger was asked for.
    pub request: LedgerRequest,
    /// The object's runs, where they are entered in the page table.
    pub spans: Vec<InstallSpan>,
    /// What the view can be taken away with, if that is up to the object.
    pub lease: Option<ObjectMappingLease>,
}

/// Who may take a mapping away again, if its lease is `lease`.
pub open spec fn mapping_owner(authority: MapAuthority, lease: u64) -> RegionOwner {
    match authority {
        MapAuthority::AddressSpace => RegionOwner::AddressSpace,
        MapAuthority::ObjectLease => RegionOwner::Lease(lease),
    }
}

impl BoundAddressSpace {
    /// Plans the anonymous memory that `intent` asks for, `pages` pages of which are funded.
    /// `validated` is what the ledger says of it, `room` whether another backing can be
    /// listed, `reserved` whether the ledger takes it, `pinned` whether the slot for the
    /// answer could be pinned down, `preflight` whether the page table has no objection.
    /// An identity that is handed out is used up even if the plan fails.
    pub fn plan_user_map(
        &mut self,
        intent: &MapIntent,
        pages: usize,
        validated: Result<MapLayout, ChangeError>,
        room: bool,
        reserved: Result<(), ChangeError>,
        pinned: Result<(), SystemCallError>,
        preflight: Result<(), SpaceError>,
    ) -> (r: Result<AnonymousPlan, PlanFailure<SystemCallError>>)
        requires
            old(self).wf(),
        ensures
            final(self).wf(),
            ({
                let fails = |error: SystemCallError, roll_back: bool|
                    r == Err::<AnonymousPlan, _>(PlanFailure { error, roll_back });
                if old(self)@.busy {
                    fails(SystemCallError::ObjectBusy, false) && final(self)@ == old(self)@
                } else if !SpaceView::mintable(old(self)@.next_backing) {
                    fails(SystemCallError::OutOfMemory, false) && final(self)@ == old(self)@
                } else {
                    &&& final(self)@ == (SpaceView { busy: r is Ok, ..old(self)@.backing_minted() })
                    &&& if validated is Err {
                        fails(
                            space::space_reported(space::change_refusal(validated->Err_0)),
                            false,
                        )
                    } else if pages != (validated->Ok_0).usable.pages {
                        fails(SystemCallError::IllegalArgument, false)
                    } else if !room {
                        fails(SystemCallError::OutOfMemory, false)
                    } else if reserved is Err {
                        fails(space::space_reported(space::change_refusal(reserved->Err_0)), false)
                    } else if pinned is Err {
                        fails(pinned->Err_0, true)
                    } else if preflight is Err {
                        fails(space::late_reported(preflight->Err_0), true)
                    } else {
                        r == Ok::<_, PlanFailure<SystemCallError>>(
                            AnonymousPlan {
                                identity: old(self)@.next_backing,
                                request: map_intent::requested(
                                    *intent,
                                    RegionOwner::AddressSpace,
                                    MapBacking::Anonymous {
                                        identity: old(self)@.next_backing,
                                        class: AnonymousClass::Data,
                                    },
                                ),
                                layout: validated->Ok_0,
                            },
                        )
                    }
                }
            }),
    {
        match self.ensure_table_transaction_available() {
            Err(error) => {
                return Err(
                    PlanFailure { error: space::post_validate_error(error), roll_back: false },
                );
            },
            Ok(_) => {},
        }
        let identity: u64 = match self.mint_backing() {
            Err(error) => {
                return Err(
                    PlanFailure { error: space::post_validate_error(error), roll_back: false },
                );
            },
            Ok(identity) => identity,
        };
        let request = map_intent::map_request(
            intent,
            RegionOwner::AddressSpace,
            MapBacking::Anonymous { identity, class: AnonymousClass::Data },
        );
        let layout = match validated {
            Err(error) => {
                return Err(
                    PlanFailure { error: space::public_change_error(error), roll_back: false },
                );
            },
            Ok(layout) => layout,
        };
        if pages != layout.usable.pages {
            return Err(PlanFailure { error: SystemCallError::IllegalArgument, roll_back: false });
        }
        if !room {
            return Err(PlanFailure { error: SystemCallError::OutOfMemory, roll_back: false });
        }
        match reserved {
            Err(error) => {
                return Err(
                    PlanFailure { error: space::public_change_error(error), roll_back: false },
                );
            },
            Ok(_) => {},
        }
        match pinned {
            Err(error) => {
                return Err(PlanFailure { error, roll_back: true });
            },
            Ok(_) => {},
        }
        match preflight {
            Err(error) => {
                return Err(
                    PlanFailure { error: space::post_validate_error(error), roll_back: true },
                );
            },
            Ok(_) => {},
        }
        self.mark_table_transaction();
        Ok(AnonymousPlan { identity, request, layout })
    }

    /// Plans anonymous memory with a backing that has its identity already, for a process
    /// that is built: `pages` pages at `vaddr`. The other arguments are those of
    /// [`BoundAddressSpace::plan_user_map`].
    pub fn plan_bound_anonymous(
        &mut self,
        vaddr: usize,
        protection: Protection,
        class: AnonymousClass,
        owner: RegionOwner,
        identity: u64,
        pages: usize,
        validated: Result<MapLayout, ChangeError>,
        reserved: Result<(), ChangeError>,
        room: bool,
        preflight: Result<(), SpaceError>,
    ) -> (r: Result<AnonymousPlan, PlanFailure<SpaceError>>)
        requires
            old(self).wf(),
        ensures
            final(self).wf(),
            final(self)@ == if r is Ok {
                SpaceView { busy: true, ..old(self)@ }
            } else {
                old(self)@
            },
            ({
                let fails = |error: SpaceError, roll_back: bool|
                    r == Err::<AnonymousPlan, _>(PlanFailure { error, roll_back });
                if old(self)@.busy {
                    fails(SpaceError::Busy, false)
                } else if pages * PAGE_SIZE > usize::MAX {
                    fails(SpaceError::BadSegment, false)
                } else if validated is Err {
                    fails(space::change_refusal(validated->Err_0), false)
                } else if reserved is Err {
                    fails(space::change_refusal(reserved->Err_0), false)
                } else if !room {
                    fails(SpaceError::NoFrame, true)
                } else if preflight is Err {
                    fails(preflight->Err_0, true)
                } else {
                    r == Ok::<_, PlanFailure<SpaceError>>(
                        AnonymousPlan {
                            identity,
                            request: map_intent::building_request(
                                vaddr,
                                (pages * PAGE_SIZE) as usize,
                                protection,
                                owner,
                                identity,
                                class,
                            ),
                            layout: validated->Ok_0,
                        },
                    )
                }
            }),
    {
        match self.ensure_table_transaction_available() {
            Err(error) => {
                return Err(PlanFailure { error, roll_back: false });
            },
            Ok(_) => {},
        }
        let bytes: usize = match pages.checked_mul(PAGE_SIZE) {
            None => {
                return Err(PlanFailure { error: SpaceError::BadSegment, roll_back: false });
            },
            Some(bytes) => bytes,
        };
        let request = LedgerRequest {
            bytes,
            guard_before: 0,
            guard_after: 0,
            placement: MapPlacement::FixedEmpty { usable_start: vaddr },
            current: protection,
            maximum: protection,
            owner,
            backing: MapBacking::Anonymous { identity, class },
            result: None,
        };
        let layout = match validated {
            Err(error) => {
                return Err(
                    PlanFailure { error: space::map_change_error(error), roll_back: false },
                );
            },
            Ok(layout) => layout,
        };
        match reserved {
            Err(error) => {
                return Err(
                    PlanFailure { error: space::map_change_error(error), roll_back: false },
                );
            },
            Ok(_) => {},
        }
        if !room {
            return Err(PlanFailure { error: SpaceError::NoFrame, roll_back: true });
        }
        match preflight {
            Err(error) => {
                return Err(PlanFailure { error, roll_back: true });
            },
            Ok(_) => {},
        }
        self.mark_table_transaction();
        Ok(AnonymousPlan { identity, request, layout })
    }

    /// Plans anonymous memory for a process that is built: `len` bytes at `vaddr`, of which
    /// `pages` pages are funded. The identity of the backing comes with the plan.
    pub fn plan_bound_anonymous_mapping(
        &mut self,
        vaddr: usize,
        len: usize,
        protection: Protection,
        pages: usize,
        validated: Result<MapLayout, ChangeError>,
        reserved: Result<(), ChangeError>,
        room: bool,
        preflight: Result<(), SpaceError>,
    ) -> (r: Result<AnonymousPlan, PlanFailure<SpaceError>>)
        requires
            old(self).wf(),
        ensures
            final(self).wf(),
            ({
                let fails = |error: SpaceError, roll_back: bool|
                    r == Err::<AnonymousPlan, _>(PlanFailure { error, roll_back });
                if len == 0 || vaddr % PAGE_SIZE != 0 || len % PAGE_SIZE != 0 || pages != len
                    / PAGE_SIZE {
                    fails(SpaceError::BadSegment, false) && final(self)@ == old(self)@
                } else if !SpaceView::mintable(old(self)@.next_backing) {
                    fails(SpaceError::NoFrame, false) && final(self)@ == old(self)@
                } else {
                    &&& final(self)@ == (SpaceView {
                        busy: old(self)@.busy || r is Ok,
                        ..old(self)@.backing_minted()
                    })
                    &&& if old(self)@.busy {
                        fails(SpaceError::Busy, false)
                    } else if validated is Err {
                        fails(space::change_refusal(validated->Err_0), false)
                    } else if reserved is Err {
                        fails(space::change_refusal(reserved->Err_0), false)
                    } else if !room {
                        fails(SpaceError::NoFrame, true)
                    } else if preflight is Err {
                        fails(preflight->Err_0, true)
                    } else {
                        r == Ok::<_, PlanFailure<SpaceError>>(
                            AnonymousPlan {
                                identity: old(self)@.next_backing,
                                request: map_intent::building_request(
                                    vaddr,
                                    len,
                                    protection,
                                    RegionOwner::AddressSpace,
                                    old(self)@.next_backing,
                                    map_intent::image_class(protection),
                                ),
                                layout: validated->Ok_0,
                            },
                        )
                    }
                }
            }),
    {
        if len == 0 || vaddr % PAGE_SIZE != 0 || len % PAGE_SIZE != 0 {
            return Err(PlanFailure { error: SpaceError::BadSegment, roll_back: false });
        }
        if pages != len / PAGE_SIZE {
            return Err(PlanFailure { error: SpaceError::BadSegment, roll_back: false });
        }
        let identity: u64 = match self.mint_backing() {
            Err(error) => {
                return Err(PlanFailure { error, roll_back: false });
            },
            Ok(identity) => identity,
        };
        let class = match protection {
            Protection::ReadExecute => AnonymousClass::InitialExecutable,
            _ => AnonymousClass::Data,
        };
        self.plan_bound_anonymous(
            vaddr,
            protection,
            class,
            RegionOwner::AddressSpace,
            identity,
            pages,
            validated,
            reserved,
            room,
            preflight,
        )
    }

    /// Plans a view of an object, where `spans` are the runs of the object's frames behind
    /// what is asked for, by first frame and length. `room` says whether the address space can hold another object
    /// and list the runs. The lease is what the view can be taken away with if that is up
    /// to the object.
    pub fn plan_object_map(
        &mut self,
        intent: &MapIntent,
        object: u64,
        object_offset: usize,
        spans: &Vec<(usize, usize)>,
        protection: Protection,
        validated: Result<(MapLayout, u64), ChangeError>,
        reserved: Result<(), ChangeError>,
        room: bool,
        pinned: Result<(), SystemCallError>,
        preflight: Result<(), MapError>,
    ) -> (r: Result<ObjectPlan, PlanFailure<SpaceError>>)
        requires
            old(self).wf(),
            backing::total_pages(spans@) <= usize::MAX,
        ensures
            final(self).wf(),
            ({
                let fails = |error: SpaceError, roll_back: bool|
                    r == Err::<ObjectPlan, _>(PlanFailure { error, roll_back });
                let pages = backing::total_pages(spans@);
                if old(self)@.busy {
                    fails(SpaceError::Busy, false) && final(self)@ == old(self)@
                } else if pages == 0 || pages != intent.spec_pages() || object_offset % PAGE_SIZE
                    != 0 {
                    fails(SpaceError::BadSegment, false) && final(self)@ == old(self)@
                } else if !SpaceView::mintable(old(self)@.next_lease) {
                    fails(SpaceError::NoFrame, false) && final(self)@ == old(self)@
                } else {
                    &&& final(self)@ == (SpaceView { busy: r is Ok, ..old(self)@.lease_minted() })
                    &&& if validated is Err {
                        fails(space::change_refusal(validated->Err_0), false)
                    } else if reserved is Err {
                        fails(space::change_refusal(reserved->Err_0), false)
                    } else if !room || (intent.result is Some && pinned is Err) {
                        fails(SpaceError::NoFrame, true)
                    } else if preflight is Err {
                        fails(table_refusal(preflight->Err_0), true)
                    } else {
                        &&& r is Ok
                        &&& r->Ok_0.request == map_intent::requested(
                            *intent,
                            mapping_owner(intent.authority, old(self)@.next_lease),
                            MapBacking::Object {
                                object,
                                maximum: protection,
                                offset: object_offset,
                            },
                        )
                        &&& r->Ok_0.spans@ == backing::placed_spans(
                            (validated->Ok_0).0.usable.start as int / PAGE_SIZE as int,
                            spans@,
                        )
                        &&& r->Ok_0.lease == match intent.authority {
                            MapAuthority::ObjectLease => Some(
                                ObjectMappingLease {
                                    lease: old(self)@.next_lease,
                                    region: (validated->Ok_0).1,
                                    range: (validated->Ok_0).0.usable,
                                    object,
                                    object_offset,
                                    protection,
                                },
                            ),
                            MapAuthority::AddressSpace => None,
                        }
                    }
                }
            }),
    {
        match self.ensure_table_transaction_available() {
            Err(error) => {
                return Err(PlanFailure { error, roll_back: false });
            },
            Ok(_) => {},
        }
        let pages: usize = backing::span_pages(spans).unwrap();
        if pages == 0 || pages != intent.pages() || object_offset % PAGE_SIZE != 0 {
            return Err(PlanFailure { error: SpaceError::BadSegment, roll_back: false });
        }
        let lease: u64 = match self.mint_lease() {
            Err(error) => {
                return Err(PlanFailure { error, roll_back: false });
            },
            Ok(lease) => lease,
        };
        let owner = match intent.authority {
            MapAuthority::AddressSpace => RegionOwner::AddressSpace,
            MapAuthority::ObjectLease => RegionOwner::Lease(lease),
        };
        let request = map_intent::map_request(
            intent,
            owner,
            MapBacking::Object { object, maximum: protection, offset: object_offset },
        );
        let (layout, region) = match validated {
            Err(error) => {
                return Err(
                    PlanFailure { error: space::map_change_error(error), roll_back: false },
                );
            },
            Ok(placed) => placed,
        };
        match reserved {
            Err(error) => {
                return Err(
                    PlanFailure { error: space::map_change_error(error), roll_back: false },
                );
            },
            Ok(_) => {},
        }
        if !room {
            return Err(PlanFailure { error: SpaceError::NoFrame, roll_back: true });
        }
        if intent.result.is_some() {
            match pinned {
                Err(_) => {
                    return Err(PlanFailure { error: SpaceError::NoFrame, roll_back: true });
                },
                Ok(_) => {},
            }
        }
        match preflight {
            Err(error) => {
                return Err(PlanFailure { error: space::map_table_error(error), roll_back: true });
            },
            Ok(_) => {},
        }
        let placed = match backing::object_spans(layout.usable.start / PAGE_SIZE, spans) {
            Err(error) => {
                return Err(PlanFailure { error, roll_back: true });
            },
            Ok(placed) => placed,
        };
        self.mark_table_transaction();
        let lease = match intent.authority {
            MapAuthority::ObjectLease => Some(
                ObjectMappingLease {
                    lease,
                    region,
                    range: layout.usable,
                    object,
                    object_offset,
                    protection,
                },
            ),
            MapAuthority::AddressSpace => None,
        };
        Ok(ObjectPlan { request, spans: placed, lease })
    }

    /// Plans to take a view of an object away. The lease has to agree with the ledger in
    /// everything; it is proof of what the ledger says, and no truth of its own.
    pub fn plan_object_unmap(
        &mut self,
        lease: ObjectMappingLease,
        regions: &Vec<Region>,
        validated: Result<(), ChangeError>,
        reserved: Result<(), ChangeError>,
        room: bool,
        preflight: Result<(), MapError>,
    ) -> (r: Result<LedgerChange, PlanFailure<SpaceError>>)
        requires
            old(self).wf(),
        ensures
            final(self).wf(),
            final(self)@ == if r is Ok {
                SpaceView { busy: true, ..old(self)@ }
            } else {
                old(self)@
            },
            ({
                let fails = |error: SpaceError, roll_back: bool|
                    r == Err::<LedgerChange, _>(PlanFailure { error, roll_back });
                let known = exists|i: int|
                    0 <= i < regions@.len() && lease.is_region(#[trigger] regions@[i]);
                if old(self)@.busy {
                    fails(SpaceError::Busy, false)
                } else if !known {
                    fails(SpaceError::BadSegment, false)
                } else if validated is Err {
                    fails(space::change_refusal(validated->Err_0), false)
                } else if reserved is Err {
                    fails(space::change_refusal(reserved->Err_0), false)
                } else if !room {
                    fails(SpaceError::NoFrame, true)
                } else if preflight is Err {
                    fails(table_refusal(preflight->Err_0), true)
                } else {
                    r == Ok::<_, PlanFailure<SpaceError>>(
                        LedgerChange::Unmap {
                            range: lease.range,
                            authority: RegionOwner::Lease(lease.lease),
                        },
                    )
                }
            }),
    {
        match self.ensure_table_transaction_available() {
            Err(error) => {
                return Err(PlanFailure { error, roll_back: false });
            },
            Ok(_) => {},
        }
        let mut known: bool = false;
        let mut index: usize = 0;
        while index < regions.len()
            invariant
                index <= regions@.len(),
                known <==> exists|i: int|
                    0 <= i < index && lease.is_region(#[trigger] regions@[i]),
            decreases regions@.len() - index,
        {
            if lease.matches_region(regions[index]) {
                assert(lease.is_region(regions@[index as int]));
                known = true;
            }
            index = index + 1;
        }
        if !known {
            return Err(PlanFailure { error: SpaceError::BadSegment, roll_back: false });
        }
        match validated {
            Err(error) => {
                return Err(
                    PlanFailure { error: space::map_change_error(error), roll_back: false },
                );
            },
            Ok(_) => {},
        }
        match reserved {
            Err(error) => {
                return Err(
                    PlanFailure { error: space::map_change_error(error), roll_back: false },
                );
            },
            Ok(_) => {},
        }
        if !room {
            return Err(PlanFailure { error: SpaceError::NoFrame, roll_back: true });
        }
        match preflight {
            Err(error) => {
                return Err(PlanFailure { error: space::map_table_error(error), roll_back: true });
            },
            Ok(_) => {},
        }
        self.mark_table_transaction();
        Ok(
            LedgerChange::Unmap {
                range: lease.range,
                authority: RegionOwner::Lease(lease.lease),
            },
        )
    }

    /// Plans to take memory away or to change its protection; `reserved` is whether the
    /// ledger takes that, `preflights` what the page table says of each part.
    pub fn prepare_user_existing_change(
        &mut self,
        reserved: Result<(), ChangeError>,
        room: bool,
        preflights: &Vec<Result<(), MapError>>,
    ) -> (r: Result<(), PlanFailure<SpaceError>>)
        requires
            old(self).wf(),
        ensures
            final(self).wf(),
            final(self)@ == if r is Ok {
                SpaceView { busy: true, ..old(self)@ }
            } else {
                old(self)@
            },
            ({
                let fails = |error: SpaceError, roll_back: bool|
                    r == Err::<(), _>(PlanFailure { error, roll_back });
                if old(self)@.busy {
                    fails(SpaceError::Busy, false)
                } else if reserved is Err {
                    fails(space::change_refusal(reserved->Err_0), false)
                } else if !room {
                    fails(SpaceError::NoFrame, true)
                } else {
                    match first_refusal(preflights@, 0) {
                        Some(error) => fails(table_refusal(error), true),
                        None => r is Ok,
                    }
                }
            }),
    {
        match self.ensure_table_transaction_available() {
            Err(error) => {
                return Err(PlanFailure { error, roll_back: false });
            },
            Ok(_) => {},
        }
        match reserved {
            Err(error) => {
                return Err(
                    PlanFailure { error: space::map_change_error(error), roll_back: false },
                );
            },
            Ok(_) => {},
        }
        if !room {
            return Err(PlanFailure { error: SpaceError::NoFrame, roll_back: true });
        }
        let mut index: usize = 0;
        while index < preflights.len()
            invariant
                index <= preflights@.len(),
                self.wf(),
                self@ == old(self)@,
                !self@.busy,
                reserved is Ok,
                room,
                first_refusal(preflights@, 0) == first_refusal(preflights@, index as int),
            decreases preflights@.len() - index,
        {
            match preflights[index] {
                Err(error) => {
                    return Err(
                        PlanFailure { error: space::map_table_error(error), roll_back: true },
                    );
                },
                Ok(_) => {},
            }
            index = index + 1;
        }
        self.mark_table_transaction();
        Ok(())
    }

    /// Completes a plan with the table frames that were had for it: `funded` says for how
    /// many of its `parts` there are any, `prepared` what the page table made of each. If
    /// it fails, the reservation in the ledger is to be rolled back, and the plan is over.
    pub fn complete_memory_change(
        &mut self,
        parts: usize,
        funded: usize,
        room: bool,
        prepared: &Vec<Result<(), MapError>>,
    ) -> (r: Result<(), SpaceError>)
        requires
            old(self).wf(),
            old(self)@.busy,
        ensures
            final(self).wf(),
            final(self)@ == (SpaceView { busy: r is Ok, ..old(self)@ }),
            r == if funded != parts || !room {
                Err::<(), _>(SpaceError::NoFrame)
            } else {
                match first_refusal(prepared@, 0) {
                    Some(error) => Err(table_refusal(error)),
                    None => Ok(()),
                }
            },
    {
        if funded != parts || !room {
            self.clear_table_transaction();
            return Err(SpaceError::NoFrame);
        }
        let mut index: usize = 0;
        while index < prepared.len()
            invariant
                index <= prepared@.len(),
                self.wf(),
                self@ == old(self)@,
                self@.busy,
                funded == parts,
                room,
                first_refusal(prepared@, 0) == first_refusal(prepared@, index as int),
            decreases prepared@.len() - index,
        {
            match prepared[index] {
                Err(error) => {
                    self.clear_table_transaction();
                    return Err(space::map_table_error(error));
                },
                Ok(_) => {},
            }
            index = index + 1;
        }
        Ok(())
    }
}

/// How an address space stands at a moment, as far as it can turn a request away before
/// anything is had for it. By the time the change is planned it may stand otherwise.
#[derive(Clone, Copy, Debug, PartialEq, Eq, Structural)]
pub struct SpaceStanding {
    /// A change is under way.
    pub busy: bool,
    /// The identity of the next backing; zero once all are spent.
    pub next_backing: u64,
}

impl SpaceView {
    /// How the address space stands.
    pub open spec fn standing(self) -> SpaceStanding {
        SpaceStanding { busy: self.busy, next_backing: self.next_backing }
    }
}

impl SpaceStanding {
    /// What asking for anonymous memory comes to; `validated` is what the ledger says of it.
    pub open spec fn map_result(self, validated: Result<(), ChangeError>) -> Result<
        (),
        SystemCallError,
    > {
        if self.busy {
            Err(SystemCallError::ObjectBusy)
        } else if self.next_backing == 0 {
            Err(SystemCallError::OutOfMemory)
        } else {
            match validated {
                Err(error) => Err(space::space_reported(space::change_refusal(error))),
                Ok(_) => Ok(()),
            }
        }
    }

    /// Why memory cannot be taken away or change its protection; `validated` is what the
    /// ledger says of it, `room` whether there is memory to list the permits.
    pub open spec fn change_refused(
        self,
        validated: Result<Vec<PermitRequirement>, ChangeError>,
        room: bool,
    ) -> Option<SystemCallError> {
        if self.busy {
            Some(SystemCallError::ObjectBusy)
        } else if validated is Err {
            Some(space::space_reported(space::change_refusal(validated->Err_0)))
        } else if !room {
            Some(SystemCallError::OutOfMemory)
        } else {
            None
        }
    }

    /// Looks, before anything is funded, whether anonymous memory that a caller asks for can
    /// be had; `validated` is what the ledger says of it.
    pub fn validate_user_map(self, validated: Result<(), ChangeError>) -> (r: Result<
        (),
        SystemCallError,
    >)
        ensures
            r == self.map_result(validated),
    {
        if self.busy {
            return Err(SystemCallError::ObjectBusy);
        }
        if self.next_backing == 0 {
            return Err(SystemCallError::OutOfMemory);
        }
        match validated {
            Err(error) => Err(space::public_change_error(error)),
            Ok(_) => Ok(()),
        }
    }

    /// Looks whether memory can be taken away or change its protection: the permits to write
    /// that the parts which remain will need. `validated` is what the ledger says of it,
    /// `room` whether there is memory to list the permits.
    pub fn validate_user_change(
        self,
        validated: Result<Vec<PermitRequirement>, ChangeError>,
        room: bool,
    ) -> (r: Result<Vec<PermitRequirement>, SystemCallError>)
        ensures
            match self.change_refused(validated, room) {
                Some(error) => r == Err::<Vec<PermitRequirement>, _>(error),
                None => r is Ok && r->Ok_0@ == validated->Ok_0@,
            },
    {
        if self.busy {
            return Err(SystemCallError::ObjectBusy);
        }
        match validated {
            Err(error) => Err(space::public_change_error(error)),
            Ok(needed) => if room {
                Ok(needed)
            } else {
                Err(SystemCallError::OutOfMemory)
            },
        }
    }
}

impl BoundAddressSpace {
    /// How the address space stands now.
    pub fn standing(&self) -> (r: SpaceStanding)
        ensures
            r == self@.standing(),
    {
        SpaceStanding { busy: self.table_transaction_active, next_backing: self.next_backing }
    }

    /// [`SpaceStanding::validate_user_map`], as the address space stands now.
    pub fn validate_user_map(&self, validated: Result<(), ChangeError>) -> (r: Result<
        (),
        SystemCallError,
    >)
        ensures
            r == self@.standing().map_result(validated),
    {
        self.standing().validate_user_map(validated)
    }

    /// [`SpaceStanding::validate_user_change`], as the address space stands now.
    pub fn validate_user_change(
        &self,
        validated: Result<Vec<PermitRequirement>, ChangeError>,
        room: bool,
    ) -> (r: Result<Vec<PermitRequirement>, SystemCallError>)
        ensures
            match self@.standing().change_refused(validated, room) {
                Some(error) => r == Err::<Vec<PermitRequirement>, _>(error),
                None => r is Ok && r->Ok_0@ == validated->Ok_0@,
            },
    {
        self.standing().validate_user_change(validated, room)
    }

    /// Looks whether a process that is built can have memory mapped; `validated` is what the
    /// ledger says of it.
    pub fn validate_building_anonymous(
        &self,
        user: UserSpace,
        vaddr: usize,
        len: usize,
        flags: ProcessMapFlags,
        validated: Result<(), ChangeError>,
    ) -> (r: Result<(), SpaceError>)
        requires
            user.wf(),
        ensures
            r == if !map_intent::building_allowed(user, vaddr, len, flags) {
                Err::<(), _>(SpaceError::BadSegment)
            } else if self@.busy {
                Err(SpaceError::Busy)
            } else if self@.next_backing == 0 {
                Err(SpaceError::NoFrame)
            } else {
                match validated {
                    Err(error) => Err(space::change_refusal(error)),
                    Ok(_) => Ok(()),
                }
            },
    {
        match map_intent::building_intent(user, vaddr, len, flags) {
            Err(error) => {
                return Err(error);
            },
            Ok(_) => {},
        }
        match self.ensure_table_transaction_available() {
            Err(error) => {
                return Err(error);
            },
            Ok(_) => {},
        }
        if self.next_backing == 0 {
            return Err(SpaceError::NoFrame);
        }
        match validated {
            Err(error) => Err(space::map_change_error(error)),
            Ok(_) => Ok(()),
        }
    }
}

/// What the page table's refusal means for the address space.
pub open spec fn table_refusal(error: MapError) -> SpaceError {
    match error {
        MapError::Conflict => SpaceError::Conflict,
        MapError::FrameExhausted | MapError::AllocationFailed => SpaceError::NoFrame,
        _ => SpaceError::BadSegment,
    }
}

/// The first refusal, at or after `from`.
pub open spec fn first_refusal(results: Seq<Result<(), MapError>>, from: int) -> Option<MapError>
    decreases results.len() - from,
{
    if from >= results.len() {
        None
    } else {
        match results[from] {
            Err(error) => Some(error),
            Ok(_) => first_refusal(results, from + 1),
        }
    }
}

/// An identity that is handed out differs from that of every backing there is, so that
/// the backing can be entered behind all of them.
pub proof fn minted_identity_is_the_greatest(state: SpaceView, i: int)
    requires
        state.wf(),
        SpaceView::mintable(state.next_backing),
        0 <= i < state.backings.len(),
    ensures
        state.backings[i].identity < state.next_backing,
        state.backing_minted().wf(),
{
    assert forall|k: int| 0 <= k < state.backings.len() implies (
    #[trigger] state.backings[k]).identity < state.next_backing + 1 by {
        assert(state.backings[k].identity < state.next_backing);
    }
}

/// An address space, which has nothing until it is bound to a pool.
pub enum AddressSpaceState {
    Unbound,
    Bound(BoundAddressSpace),
}

impl AddressSpaceState {
    pub fn is_bound(&self) -> (r: bool)
        ensures
            r == (self is Bound),
    {
        match self {
            AddressSpaceState::Unbound => false,
            AddressSpaceState::Bound(_) => true,
        }
    }

    /// Binds the address space; if it is bound already, what was to be bound comes back.
    pub fn bind(&mut self, bound: BoundAddressSpace) -> (r: Result<(), BoundAddressSpace>)
        ensures
            r == if *old(self) is Bound {
                Err::<(), _>(bound)
            } else {
                Ok(())
            },
            *final(self) == if *old(self) is Bound {
                *old(self)
            } else {
                AddressSpaceState::Bound(bound)
            },
    {
        if self.is_bound() {
            return Err(bound);
        }
        *self = AddressSpaceState::Bound(bound);
        Ok(())
    }

    /// What the address space has, if it is bound.
    pub fn bound(&self) -> (r: Result<&BoundAddressSpace, SpaceError>)
        ensures
            match self {
                AddressSpaceState::Unbound => r == Err::<&BoundAddressSpace, _>(
                    SpaceError::Unbound,
                ),
                AddressSpaceState::Bound(bound) => r == Ok::<&BoundAddressSpace, SpaceError>(bound),
            },
    {
        match self {
            AddressSpaceState::Unbound => Err(SpaceError::Unbound),
            AddressSpaceState::Bound(bound) => Ok(bound),
        }
    }

    /// What the address space has, to be changed.
    pub fn bound_mut(&mut self) -> (r: Result<&mut BoundAddressSpace, SpaceError>)
        ensures
            match r {
                Err(error) => *old(self) is Unbound && error == SpaceError::Unbound
                    && *final(self) == *old(self),
                Ok(bound) => *old(self) == AddressSpaceState::Bound(*bound) && *final(self)
                    == AddressSpaceState::Bound(*final(bound)),
            },
    {
        match self {
            AddressSpaceState::Unbound => Err(SpaceError::Unbound),
            AddressSpaceState::Bound(bound) => Ok(bound),
        }
    }
}

/// Identities are handed out one after the other, and handing one out changes nothing else.
pub proof fn identities_are_handed_out_in_turn(state: SpaceView)
    requires
        SpaceView::mintable(state.next_backing),
        SpaceView::mintable(state.next_lease),
    ensures
        state.backing_minted().next_backing == state.next_backing + 1,
        (SpaceView { next_backing: state.next_backing, ..state.backing_minted() }) == state,
        state.lease_minted().next_lease == state.next_lease + 1,
        (SpaceView { next_lease: state.next_lease, ..state.lease_minted() }) == state,
        state.next_backing != 0 && state.next_lease != 0,
{
}

/// The objects that pieces show are each named once, in the order in which they come up: exactly
/// those of which some piece is a view.
pub proof fn objects_are_named_once(fragments: Seq<RetiringFragment>)
    ensures
        forall|object: u64| #[trigger]
            objects_of(fragments).contains(object) <==> exists|i: int|
                0 <= i < fragments.len() && fragment_object(#[trigger] fragments[i]) == Some(object),
        forall|i: int, j: int|
            0 <= i < j < objects_of(fragments).len() ==> objects_of(fragments)[i] != objects_of(
                fragments,
            )[j],
        objects_of(fragments).len() <= fragments.len(),
    decreases fragments.len(),
{
    if fragments.len() > 0 {
        let rest = fragments.drop_last();
        let last = fragments.last();
        let before = objects_of(rest);
        let all = objects_of(fragments);
        objects_are_named_once(rest);
        assert forall|object: u64| #[trigger] all.contains(object) <==> exists|i: int|
            0 <= i < fragments.len() && fragment_object(#[trigger] fragments[i]) == Some(
                object,
            ) by {
            if all.contains(object) {
                if before.contains(object) {
                    let i = choose|i: int|
                        0 <= i < rest.len() && fragment_object(#[trigger] rest[i]) == Some(object);
                    assert(fragments[i] == rest[i]);
                } else {
                    let k = choose|k: int| 0 <= k < all.len() && all[k] == object;
                    assert(k == before.len() || before[k] == object);
                    assert(fragments[fragments.len() - 1] == last);
                }
            }
            if exists|i: int|
                0 <= i < fragments.len() && fragment_object(#[trigger] fragments[i]) == Some(
                    object,
                ) {
                let i = choose|i: int|
                    0 <= i < fragments.len() && fragment_object(#[trigger] fragments[i]) == Some(
                        object,
                    );
                if i < rest.len() {
                    assert(rest[i] == fragments[i]);
                    assert(before.contains(object));
                    let k = choose|k: int| 0 <= k < before.len() && before[k] == object;
                    assert(all[k] == object);
                } else if !before.contains(object) {
                    assert(all[before.len() as int] == object);
                } else {
                    assert(all == before);
                }
            }
        }
    }
}

/// A region shows an object exactly if it maps that object, and a piece of it shows the same.
pub proof fn views_show_their_object(region: Region, piece: RetiringFragment, object: u64)
    ensures
        shows(region, object) <==> (region.kind matches RegionKind::Mapping { backing, .. } && (
        backing matches BackingView::Object { object: shown, .. } && shown == object)),
        piece.kind == region.kind ==> (fragment_object(piece) == Some(object) <==> shows(
            region,
            object,
        )),
        region.kind is Guard ==> !shows(region, object),
{
}

/// Who may take a mapping away: only the holder of its lease, or the address space itself.
pub proof fn mappings_have_one_owner(authority: MapAuthority, lease: u64)
    ensures
        mapping_owner(authority, lease) == RegionOwner::Lease(lease) <==> authority is ObjectLease,
        mapping_owner(authority, lease) is AddressSpace <==> authority is AddressSpace,
{
}

/// Anonymous memory is had exactly from an idle address space that has an identity for it, if the
/// ledger takes it; a change is refused by one under way first, then by the ledger, then for want
/// of memory.
pub proof fn requests_wait_for_an_idle_space(
    stood: SpaceStanding,
    mapped: Result<(), ChangeError>,
    changed: Result<Vec<PermitRequirement>, ChangeError>,
    room: bool,
)
    ensures
        stood.map_result(mapped) is Ok <==> !stood.busy && stood.next_backing != 0 && mapped is Ok,
        stood.busy ==> stood.map_result(mapped) == Err::<(), _>(SystemCallError::ObjectBusy),
        !stood.busy && stood.next_backing == 0 ==> stood.map_result(mapped) == Err::<(), _>(
            SystemCallError::OutOfMemory,
        ),
        stood.change_refused(changed, room) is None <==> !stood.busy && changed is Ok && room,
        stood.busy ==> stood.change_refused(changed, room) == Some(SystemCallError::ObjectBusy),
        !stood.busy && changed is Ok && !room ==> stood.change_refused(changed, room) == Some(
            SystemCallError::OutOfMemory,
        ),
{
}

/// How an address space stands is what it is busy with and what it hands out next.
pub proof fn standing_tells_of_the_space(state: SpaceView)
    ensures
        state.standing().busy == state.busy,
        state.standing().next_backing == state.next_backing,
{
}

/// Refusals of the page table: an entry in the way is a conflict, want of a frame or of memory is
/// that, and all else is a bad request.
pub proof fn table_refusals_keep_their_sense(error: MapError)
    ensures
        table_refusal(error) is Conflict <==> error is Conflict,
        table_refusal(error) is NoFrame <==> error is FrameExhausted || error is AllocationFailed,
        !(error is Conflict) && !(error is FrameExhausted) && !(error is AllocationFailed)
            ==> table_refusal(error) is BadSegment,
{
}

/// The first refusal is the one that counts; without a refusal there is none.
pub proof fn first_refusal_counts(results: Seq<Result<(), MapError>>, from: int)
    requires
        0 <= from,
    ensures
        match first_refusal(results, from) {
            Some(error) => exists|i: int|
                {
                    &&& from <= i < results.len()
                    &&& (#[trigger] results[i]) == Err::<(), _>(error)
                    &&& forall|j: int| from <= j < i ==> (#[trigger] results[j]) is Ok
                },
            None => forall|j: int| from <= j < results.len() ==> (#[trigger] results[j]) is Ok,
        },
    decreases results.len() - from,
{
    if from < results.len() {
        first_refusal_counts(results, from + 1);
        if results[from] is Ok && first_refusal(results, from + 1) is Some {
            let error = first_refusal(results, from + 1)->0;
            let i = choose|i: int|
                {
                    &&& from + 1 <= i < results.len()
                    &&& (#[trigger] results[i]) == Err::<(), _>(error)
                    &&& forall|j: int| from + 1 <= j < i ==> (#[trigger] results[j]) is Ok
                };
            assert(results[i] == Err::<(), _>(error));
        } else if results[from] is Err {
            assert(results[from] == Err::<(), _>(first_refusal(results, from)->0));
        }
    }
}

/// Owning a lent run changes who holds it and nothing else: the same pages are in the same frames,
/// and no other run and no other backing changes.
pub proof fn owning_moves_nothing(backings: Seq<BackingState>, i: int, b: int, e: int)
    requires
        backings.len() > 0,
        0 <= i < backings.last().extents.len(),
        0 <= b < backings.len(),
        0 <= e < backings[b].extents.len(),
    ensures
        ({
            let after = lent_owned(backings, i);
            let run = after[b].extents[e];
            &&& after.len() == backings.len() && after[b].extents.len() == backings[b].extents.len()
            &&& after[b].identity == backings[b].identity && after[b].pages == backings[b].pages
            &&& (run.offset_pages, run.base, run.pages) == (
                backings[b].extents[e].offset_pages,
                backings[b].extents[e].base,
                backings[b].extents[e].pages,
            )
            &&& b == backings.len() - 1 && e == i ==> run.holding is Boot
            &&& b < backings.len() - 1 || e != i ==> run == backings[b].extents[e]
        }),
{
}

/// Giving pages of one backing back leaves every other backing, all views and all counters as they
/// are, and takes the backing out exactly if nothing of it is left.
pub proof fn giving_back_concerns_one_backing(
    before: SpaceView,
    after: SpaceView,
    i: int,
    start: int,
    end: int,
    j: int,
)
    requires
        0 <= i < before.backings.len(),
        0 <= j < before.backings.len(),
        without_pages(before, after, i, start, end),
    ensures
        after.views == before.views && after.busy == before.busy,
        after.next_backing == before.next_backing && after.next_lease == before.next_lease
            && after.image_end == before.image_end,
        j != i ==> after.backings.contains(before.backings[j]),
        after.backings.len() == before.backings.len() || after.backings.len()
            == before.backings.len() - 1,
{
    if j < i {
        assert(after.backings[j] == before.backings[j]);
    } else if j > i {
        if after.backings.len() == before.backings.len() {
            assert(after.backings[j] == before.backings[j]);
        } else {
            assert(after.backings[j - 1] == before.backings[j]);
        }
    }
}

/// An object is referenced exactly if some region, wherever it stands, is a view of it; it is held
/// exactly if some entry is its.
pub proof fn references_are_found_anywhere(
    regions: Seq<Region>,
    views: Seq<ObjectView>,
    object: u64,
    i: int,
)
    ensures
        0 <= i < regions.len() && shows(regions[i], object) ==> referenced(regions, object),
        (forall|k: int| 0 <= k < regions.len() ==> !shows(#[trigger] regions[k], object))
            ==> !referenced(regions, object),
        0 <= i < views.len() && views[i].object == object ==> holds_object(views, object),
        (forall|k: int| 0 <= k < views.len() ==> (#[trigger] views[k]).object != object)
            ==> !holds_object(views, object),
{
    if 0 <= i < views.len() && views[i].object == object {
        assert(view_at(views, i, object));
    }
}

} // verus!
