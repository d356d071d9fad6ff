//! What happens to a change of an address space once it is committed: when every hart has
//! heard of it, what it took away is released piece by piece, and only then is the caller
//! answered.
use vstd::prelude::*;

use crate::address_space;
use crate::address_space::{BoundAddressSpace, ObjectView, SpaceView};
use crate::backing;
use crate::backing::BackingExtent;
use crate::memory_object::Protection;
use crate::process::PAGE_SIZE;
use crate::region::{
    BackingRetire, BackingView, Region, RegionKind, RegionOwner, RetiringFragment,
};

verus! {

/// What one part of a change left of its table frames: those that hung in the page table,
/// and those that were not needed.
pub struct TableOutcome {
    pub retired: Vec<usize>,
    pub unused: Vec<usize>,
}

/// The same as a value.
#[verifier::ext_equal]
pub struct TableOutcomeView {
    pub retired: Seq<usize>,
    pub unused: Seq<usize>,
}

impl View for TableOutcome {
    type V = TableOutcomeView;

    open spec fn view(&self) -> TableOutcomeView {
        TableOutcomeView { retired: self.retired@, unused: self.unused@ }
    }
}

/// A step of releasing table frames.
#[derive(Clone, Copy, Debug, PartialEq, Eq, Structural)]
pub enum TableRetireStep {
    Owner(usize),
    Progress,
    Complete,
}

/// What a change left of its table frames.
pub struct PublishedTableChanges {
    pub outcomes: Vec<TableOutcome>,
}

impl View for PublishedTableChanges {
    type V = Seq<TableOutcomeView>;

    open spec fn view(&self) -> Seq<TableOutcomeView> {
        self.outcomes@.map_values(|o: TableOutcome| o@)
    }
}

/// How many steps releasing the table frames takes: one for each frame and one for each
/// part.
pub open spec fn table_steps(outcomes: Seq<TableOutcomeView>) -> int
    decreases outcomes.len(),
{
    if outcomes.len() == 0 {
        0
    } else {
        table_steps(outcomes.drop_last()) + outcomes.last().retired.len()
            + outcomes.last().unused.len() + 1
    }
}

/// There is no negative number of steps.
proof fn table_steps_count(outcomes: Seq<TableOutcomeView>)
    ensures
        table_steps(outcomes) >= outcomes.len(),
    decreases outcomes.len(),
{
    if outcomes.len() > 0 {
        table_steps_count(outcomes.drop_last());
    }
}

/// What the next step hands out.
pub open spec fn next_table(outcomes: Seq<TableOutcomeView>) -> TableRetireStep {
    if outcomes.len() == 0 {
        TableRetireStep::Complete
    } else if outcomes.last().retired.len() > 0 {
        TableRetireStep::Owner(outcomes.last().retired.last())
    } else if outcomes.last().unused.len() > 0 {
        TableRetireStep::Owner(outcomes.last().unused.last())
    } else {
        TableRetireStep::Progress
    }
}

/// What the next step leaves.
pub open spec fn after_table(outcomes: Seq<TableOutcomeView>) -> Seq<TableOutcomeView> {
    if outcomes.len() == 0 {
        outcomes
    } else {
        let last = outcomes.last();
        let rest = outcomes.drop_last();
        if last.retired.len() > 0 {
            rest.push(TableOutcomeView { retired: last.retired.drop_last(), ..last })
        } else if last.unused.len() > 0 {
            rest.push(TableOutcomeView { unused: last.unused.drop_last(), ..last })
        } else {
            rest
        }
    }
}

impl PublishedTableChanges {
    /// Hands out one table frame, or finishes one part.
    pub fn retire_step(&mut self) -> (r: TableRetireStep)
        ensures
            r == next_table(old(self)@),
            final(self)@ == after_table(old(self)@),
            table_steps(final(self)@) == table_steps(old(self)@) - if old(self)@.len() == 0 {
                0int
            } else {
                1
            },
    {
        let ghost before = self@;
        let ghost concrete = self.outcomes@;
        if self.outcomes.len() == 0 {
            return TableRetireStep::Complete;
        }
        let ghost rest = before.drop_last();
        let mut outcome = self.outcomes.pop().unwrap();
        assert(outcome@ == before.last());
        assert(self@ =~= rest);
        let ghost last = outcome@;
        match outcome.retired.pop() {
            Some(frame) => {
                assert(outcome.retired@ =~= last.retired.drop_last());
                self.outcomes.push(outcome);
                proof {
                    let left = TableOutcomeView { retired: last.retired.drop_last(), ..last };
                    assert(self@ =~= rest.push(left));
                    assert(self@.drop_last() =~= rest);
                }
                return TableRetireStep::Owner(frame);
            },
            None => {},
        }
        match outcome.unused.pop() {
            Some(frame) => {
                assert(outcome.unused@ =~= last.unused.drop_last());
                self.outcomes.push(outcome);
                proof {
                    let left = TableOutcomeView { unused: last.unused.drop_last(), ..last };
                    assert(self@ =~= rest.push(left));
                    assert(self@.drop_last() =~= rest);
                }
                return TableRetireStep::Owner(frame);
            },
            None => {},
        }
        TableRetireStep::Progress
    }
}

/// How much of a backing still has to be given back.
#[derive(Clone, Copy, Debug, PartialEq, Eq, Structural)]
pub struct BackingRetireCursor {
    pub identity: u64,
    pub next_offset: usize,
    pub remaining: usize,
}

/// An object of which a change took views away.
#[derive(Clone, Copy, Debug, PartialEq, Eq, Structural)]
pub struct RetiringObjectView {
    pub object: u64,
    pub core: u64,
    /// What the address space held of the object, once it has no other view of it.
    pub owner: Option<u64>,
}

/// A committed change whose remains are released.
pub struct RetiringSpaceChange {
    tables: PublishedTableChanges,
    fragments: Vec<RetiringFragment>,
    /// The objects to which permits to write are given back.
    permits: Vec<u64>,
    backing: Option<BackingRetireCursor>,
    backing_permits: usize,
    views: Vec<RetiringObjectView>,
    tables_complete: bool,
    ledger_complete: bool,
}

/// The same as a value.
#[verifier::ext_equal]
pub struct RetiringView {
    pub tables: Seq<TableOutcomeView>,
    pub fragments: Seq<RetiringFragment>,
    pub permits: Seq<u64>,
    pub backing: Option<BackingRetireCursor>,
    pub backing_permits: usize,
    pub views: Seq<RetiringObjectView>,
    pub tables_complete: bool,
    pub ledger_complete: bool,
}

impl View for RetiringSpaceChange {
    type V = RetiringView;

    closed spec fn view(&self) -> RetiringView {
        RetiringView {
            tables: self.tables@,
            fragments: self.fragments@,
            permits: self.permits@,
            backing: self.backing,
            backing_permits: self.backing_permits,
            views: self.views@,
            tables_complete: self.tables_complete,
            ledger_complete: self.ledger_complete,
        }
    }
}

/// What one step of the release does outside.
#[derive(Clone, Copy, Debug, PartialEq, Eq, Structural)]
pub enum ReleaseStep {
    /// Frees a table frame.
    Table(usize),
    /// Nothing.
    Progress,
    /// Frees a run of frames.
    Backing(BackingExtent),
    /// A view of an object is gone; whoever owns its lease is told.
    View(RetiringFragment),
    /// Gives a permit to write back to the object.
    Permit { object: u64, core: u64 },
    /// The ledger forgets the change.
    Ledger,
    /// Lets go of an object.
    Object(RetiringObjectView),
    /// Everything is released; whoever owns the lease is told.
    Finished,
}

/// Entry `i` is that of `object`.
pub open spec fn retiring_at(views: Seq<RetiringObjectView>, i: int, object: u64) -> bool {
    0 <= i < views.len() && views[i].object == object && forall|k: int|
        0 <= k < i ==> (#[trigger] views[k]).object != object
}

/// No object is listed twice.
pub open spec fn distinct(views: Seq<RetiringObjectView>) -> bool {
    forall|i: int, j: int|
        0 <= i < j < views.len() ==> (#[trigger] views[i]).object != (#[trigger] views[j]).object
}

/// The object is among those of which views are taken away.
pub open spec fn known(views: Seq<RetiringObjectView>, object: u64) -> bool {
    exists|k: int| retiring_at(views, k, object)
}

/// The fragment can be released.
pub open spec fn releasable(fragment: RetiringFragment) -> bool {
    &&& fragment.range.wf()
    &&& match fragment.kind {
        RegionKind::Mapping { backing: BackingView::Object { .. }, .. } => true,
        RegionKind::Mapping { backing: BackingView::Anonymous { offset, .. }, .. } => fragment.owner
            == RegionOwner::AddressSpace && offset % PAGE_SIZE == 0 && offset
            + fragment.range.spec_bytes() <= usize::MAX,
        RegionKind::Guard => fragment.owner == RegionOwner::AddressSpace,
    }
}

/// How many steps the fragments take at most: one each, and one for each page that is
/// given back.
pub open spec fn fragment_steps(fragments: Seq<RetiringFragment>) -> int
    decreases fragments.len(),
{
    if fragments.len() == 0 {
        0
    } else {
        fragment_steps(fragments.drop_last()) + 1 + fragments.last().range.pages
    }
}

/// There is no negative number of steps.
proof fn fragment_steps_count(fragments: Seq<RetiringFragment>)
    ensures
        fragment_steps(fragments) >= 0,
    decreases fragments.len(),
{
    if fragments.len() > 0 {
        fragment_steps_count(fragments.drop_last());
    }
}

impl RetiringView {
    /// What every operation keeps.
    pub open spec fn wf(self) -> bool {
        &&& self.tables_complete ==> self.tables.len() == 0
        &&& forall|i: int|
            0 <= i < self.fragments.len() ==> releasable(#[trigger] self.fragments[i])
        &&& forall|i: int|
            0 <= i < self.permits.len() ==> known(self.views, #[trigger] self.permits[i])
        &&& distinct(self.views)
        &&& self.backing matches Some(cursor) ==> cursor.next_offset % PAGE_SIZE == 0
            && cursor.remaining % PAGE_SIZE == 0 && cursor.remaining > 0 && cursor.next_offset
            + cursor.remaining <= usize::MAX
        &&& self.backing is Some ==> self.tables_complete
        &&& self.ledger_complete ==> self.tables_complete && self.fragments.len() == 0
            && self.permits.len() == 0 && self.backing is None
    }

    /// How many steps are left at most.
    pub open spec fn steps_left(self) -> int {
        let cursor = match self.backing {
            Some(cursor) => cursor.remaining as int / PAGE_SIZE as int,
            None => 0,
        };
        let ledger = if self.ledger_complete {
            0int
        } else {
            1
        };
        table_steps(self.tables) + fragment_steps(self.fragments) + self.permits.len() + cursor
            + ledger + self.views.len()
    }

    /// What the next step does.
    pub open spec fn next(self) -> ReleaseStep {
        if self.tables.len() > 0 {
            match next_table(self.tables) {
                TableRetireStep::Owner(frame) => ReleaseStep::Table(frame),
                _ => ReleaseStep::Progress,
            }
        } else if self.backing is Some {
            // Which run, the address space says.
            ReleaseStep::Progress
        } else if self.fragments.len() > 0 {
            match address_space::fragment_object(self.fragments.last()) {
                Some(_) => ReleaseStep::View(self.fragments.last()),
                None => ReleaseStep::Progress,
            }
        } else if self.permits.len() > 0 {
            let object = self.permits.last();
            let k = choose|k: int| retiring_at(self.views, k, object);
            ReleaseStep::Permit { object, core: self.views[k].core }
        } else if !self.ledger_complete {
            ReleaseStep::Ledger
        } else if self.views.len() > 0 {
            ReleaseStep::Object(self.views.last())
        } else {
            ReleaseStep::Finished
        }
    }

    /// What the next step leaves, unless a backing is given back.
    pub open spec fn after(self) -> RetiringView {
        if self.tables.len() > 0 {
            RetiringView { tables: after_table(self.tables), ..self }
        } else {
            let this = RetiringView { tables_complete: true, ..self };
            if this.fragments.len() > 0 {
                let last = this.fragments.last();
                RetiringView {
                    fragments: this.fragments.drop_last(),
                    backing: match last.kind {
                        RegionKind::Mapping {
                            backing: BackingView::Anonymous { identity, offset },
                            ..
                        } => if last.backing_retire == BackingRetire::Release {
                            Some(
                                BackingRetireCursor {
                                    identity,
                                    next_offset: offset,
                                    remaining: last.range.spec_bytes() as usize,
                                },
                            )
                        } else {
                            None
                        },
                        _ => None,
                    },
                    ..this
                }
            } else if this.permits.len() > 0 {
                RetiringView { permits: this.permits.drop_last(), ..this }
            } else if !this.ledger_complete {
                RetiringView { ledger_complete: true, ..this }
            } else if this.views.len() > 0 {
                RetiringView { views: this.views.drop_last(), ..this }
            } else {
                this
            }
        }
    }
}

impl RetiringSpaceChange {
    pub closed spec fn wf(&self) -> bool {
        self@.wf()
    }

    /// Starts to release what a change took away: its table frames, its fragments, the
    /// permits to write that came with them, and the objects behind them.
    pub fn new(
        tables: PublishedTableChanges,
        fragments: Vec<RetiringFragment>,
        permits: Vec<u64>,
        backing_permits: usize,
        views: Vec<RetiringObjectView>,
    ) -> (r: RetiringSpaceChange)
        requires
            forall|i: int| 0 <= i < fragments@.len() ==> releasable(#[trigger] fragments@[i]),
            forall|i: int| 0 <= i < permits@.len() ==> known(views@, #[trigger] permits@[i]),
            distinct(views@),
        ensures
            r.wf(),
            r@ == (RetiringView {
                tables: tables@,
                fragments: fragments@,
                permits: permits@,
                backing: None,
                backing_permits,
                views: views@,
                tables_complete: false,
                ledger_complete: false,
            }),
    {
        RetiringSpaceChange {
            tables,
            fragments,
            permits,
            backing: None,
            backing_permits,
            views,
            tables_complete: false,
            ledger_complete: false,
        }
    }

    /// What is held of the object.
    fn core_of(&self, object: u64) -> (r: u64)
        requires
            known(self@.views, object),
        ensures
            r == self@.views[choose|k: int| retiring_at(self@.views, k, object)].core,
    {
        let ghost at = choose|k: int| retiring_at(self@.views, k, object);
        assert(retiring_at(self@.views, at, object));
        let mut index: usize = 0;
        while self.views[index].object != object
            invariant
                retiring_at(self@.views, at, object),
                index <= at,
            decreases self@.views.len() - index,
        {
            assert(self.views.len() == self@.views.len());
            index = index + 1;
        }
        assert(index == at);
        self.views[index].core
    }

    /// Gives one run of frames of the backing back.
    fn advance_backing(&mut self, space: &mut BoundAddressSpace, cursor: BackingRetireCursor) -> (r:
        BackingExtent)
        requires
            old(self).wf(),
            old(space).wf(),
            old(self)@.backing == Some(cursor),
            exists|i: int| #[trigger]
                address_space::releases(
                    old(space)@.backings,
                    i,
                    cursor.identity,
                    cursor.next_offset,
                    cursor.remaining,
                    old(self)@.backing_permits,
                ),
        ensures
            final(self).wf(),
            final(space).wf(),
            backing_released(old(self)@, final(self)@, old(space)@, final(space)@, cursor, r),
    {
        let ghost before = self@;
        let ghost offset = cursor.next_offset;
        let mut permits: usize = self.backing_permits;
        let (extent, pages) = space.retire_backing_one(
            cursor.identity,
            cursor.next_offset,
            cursor.remaining,
            &mut permits,
        );
        proof {
            let start = (offset / PAGE_SIZE) as int;
            let i = choose|i: int| #[trigger]
                address_space::releases(
                    old(space)@.backings,
                    i,
                    cursor.identity,
                    offset,
                    cursor.remaining,
                    before.backing_permits,
                ) && {
                    let b = old(space)@.backings[i];
                    let e = b.extents[backing::holder(b.extents, start)];
                    let end = backing::least(e.end(), start + cursor.remaining / PAGE_SIZE);
                    &&& pages == end - start
                    &&& extent == (BackingExtent {
                        offset_pages: start as usize,
                        base: e.frame(start) as usize,
                        pages,
                        holding: e.holding,
                    })
                    &&& permits == before.backing_permits - backing::cuts(e, start, end)
                    &&& address_space::without_pages(old(space)@, space@, i, start, end)
                };
            let b = old(space)@.backings[i];
            assert(backing::owned(b.extents, start));
            assert(backing::held_by(b.extents, backing::holder(b.extents, start), start));
            assert(pages >= 1);
            assert(pages <= cursor.remaining / PAGE_SIZE);
            assert(pages * PAGE_SIZE <= cursor.remaining);
        }
        self.backing_permits = permits;
        let bytes: usize = pages * PAGE_SIZE;
        let remaining: usize = cursor.remaining - bytes;
        proof {
            multiples_stay(cursor.next_offset as int, cursor.remaining as int, pages as int);
        }
        self.backing = if remaining != 0 {
            Some(
                BackingRetireCursor {
                    identity: cursor.identity,
                    next_offset: cursor.next_offset + bytes,
                    remaining,
                },
            )
        } else {
            None
        };
        assert(self@.fragments == before.fragments);
        assert(self@.permits == before.permits);
        assert(self@.wf());
        extent
    }

    /// Takes over what the address space still holds of the objects, for those that it
    /// shows nowhere any more.
    fn take_owners(&mut self, space: &mut BoundAddressSpace, regions: &Vec<Region>)
        requires
            old(self).wf(),
            old(space).wf(),
        ensures
            final(self).wf(),
            final(space).wf(),
            owners_taken(old(self)@, final(self)@, old(space)@, final(space)@, regions@),
    {
        let ghost before = self@;
        let ghost held = space@;
        proof {
            space.wf_view();
        }
        let mut index: usize = 0;
        while index < self.views.len()
            invariant
                before == old(self)@,
                held == old(space)@,
                self.wf(),
                space.wf(),
                index <= self@.views.len(),
                self@ == (RetiringView { views: self@.views, ..before }),
                self@.views.len() == before.views.len(),
                forall|i: int|
                    0 <= i < index ==> owner_taken(
                        before.views,
                        #[trigger] self@.views[i],
                        i,
                        regions@,
                        held.views,
                    ),
                forall|i: int|
                    index <= i < self@.views.len() ==> (address_space::holds_object(
                        space@.views,
                        (#[trigger] self@.views[i]).object,
                    ) <==> address_space::holds_object(held.views, self@.views[i].object)),
                forall|i: int|
                    index <= i < self@.views.len() ==> #[trigger] self@.views[i] == before.views[i],
                space@ == (SpaceView { views: space@.views, ..held }),
                forall|v: ObjectView| #[trigger]
                    space@.views.contains(v) <==> held.views.contains(v) && !taken_below(
                        before.views,
                        index as int,
                        regions@,
                        v.object,
                    ),
            decreases self@.views.len() - index,
        {
            let view = self.views[index];
            let ghost now = self@;
            let ghost there = space@;
            proof {
                space.wf_view();
            }
            if view.owner.is_none() {
                let owner = space.release_view_region(view.object, regions);
                proof {
                    space.wf_view();
                    if owner is Some {
                        let k = choose|k: int| #[trigger]
                            address_space::view_at(there.views, k, view.object) && owner == Some(
                                there.views[k].core,
                            ) && space@ == (SpaceView { views: there.views.remove(k), ..there });
                        removal_keeps_others(there.views, k);
                        assert(there.views.contains(there.views[k]));
                        assert(held.views.contains(there.views[k]));
                        assert(there.views[k] == (ObjectView {
                            object: view.object,
                            core: owner->0,
                        }));
                        assert forall|i: int| index < i < now.views.len() implies (
                        address_space::holds_object(
                            space@.views,
                            (#[trigger] now.views[i]).object,
                        ) <==> address_space::holds_object(
                            there.views,
                            now.views[i].object,
                        )) by {
                            assert(now.views[index as int].object != now.views[i].object);
                            holds_others(there.views, k, now.views[i].object);
                        }
                    }
                }
                self.views.set(index, RetiringObjectView { owner, ..view });
                proof {
                    assert(now.views[index as int] == before.views[index as int]);
                    retiring_views_stay(now.views, self@.views);
                    assert forall|i: int| 0 <= i < self@.permits.len() implies known(
                        self@.views,
                        #[trigger] self@.permits[i],
                    ) by {
                        assert(known(now.views, now.permits[i]));
                        let k = choose|k: int| retiring_at(now.views, k, now.permits[i]);
                        assert(retiring_at(self@.views, k, self@.permits[i]));
                    }
                    assert(self@.fragments == now.fragments);
                    assert(self@.wf());
                }
            }
            proof {
                assert(before.views[index as int] == view);
                space.wf_view();
                let was = there.views;
                assert forall|v: ObjectView| #[trigger] space@.views.contains(v) <==> held.views.contains(
                    v,
                ) && !taken_below(before.views, index + 1, regions@, v.object) by {
                    taken_one_more(before.views, index as int, regions@, v.object);
                    assert(was.contains(v) <==> held.views.contains(v) && !taken_below(
                        before.views,
                        index as int,
                        regions@,
                        v.object,
                    ));
                    if view.owner is None {
                        released_one(was, space@.views, view.object, regions@, v);
                    }
                }
            }
            index = index + 1;
        }
        proof {
            space.wf_view();
        }
    }

    /// Releases one piece, and says what that takes outside. `regions` are those of the
    /// ledger without what the change took away.
    pub fn advance(&mut self, space: &mut BoundAddressSpace, regions: &Vec<Region>) -> (r:
        ReleaseStep)
        requires
            old(self).wf(),
            old(space).wf(),
            old(self)@.tables.len() == 0 ==> (old(self)@.backing matches Some(cursor) ==> exists|
                i: int,
            | #[trigger]
                address_space::releases(
                    old(space)@.backings,
                    i,
                    cursor.identity,
                    cursor.next_offset,
                    cursor.remaining,
                    old(self)@.backing_permits,
                )),
        ensures
            final(self).wf(),
            final(space).wf(),
            advanced(old(self)@, final(self)@, r),
            old(self)@.tables.len() == 0 && old(self)@.backing is Some ==> {
                let cursor = old(self)@.backing->0;
                &&& r is Backing
                &&& backing_released(
                    old(self)@,
                    final(self)@,
                    old(space)@,
                    final(space)@,
                    cursor,
                    r->Backing_0,
                )
            },
            !(old(self)@.tables.len() == 0 && old(self)@.backing is Some) ==> {
                &&& r == old(self)@.next()
                &&& r != ReleaseStep::Ledger ==> final(self)@ == old(self)@.after()
                    && final(space)@ == old(space)@
                &&& r == ReleaseStep::Ledger ==> owners_taken(
                    old(self)@.after(),
                    final(self)@,
                    old(space)@,
                    final(space)@,
                    regions@,
                )
            },
    {
        let ghost before = self@;
        proof {
            table_steps_count(before.tables);
            fragment_steps_count(before.fragments);
        }
        if !self.tables_complete {
            match self.tables.retire_step() {
                TableRetireStep::Owner(frame) => {
                    assert(self@.permits =~= before.permits);
                    return ReleaseStep::Table(frame);
                },
                TableRetireStep::Progress => {
                    return ReleaseStep::Progress;
                },
                TableRetireStep::Complete => {
                    self.tables_complete = true;
                },
            }
        }
        match self.backing {
            Some(cursor) => {
                let extent = self.advance_backing(space, cursor);
                return ReleaseStep::Backing(extent);
            },
            None => {},
        }
        let ghost this = self@;
        match self.fragments.pop() {
            Some(fragment) => {
                proof {
                    let n = this.fragments.len() - 1;
                    assert(releasable(this.fragments[n]));
                    assert(self.fragments@ =~= this.fragments.drop_last());
                    fragment_steps_count(this.fragments.drop_last());
                }
                match fragment.kind {
                    RegionKind::Mapping {
                        backing: BackingView::Anonymous { identity, offset },
                        ..
                    } => {
                        if fragment.backing_retire == BackingRetire::Release {
                            let remaining: usize = fragment.range.bytes();
                            assert(remaining as int / PAGE_SIZE as int == fragment.range.pages);
                            self.backing = Some(
                                BackingRetireCursor { identity, next_offset: offset, remaining },
                            );
                        }
                        return ReleaseStep::Progress;
                    },
                    RegionKind::Mapping { backing: BackingView::Object { .. }, .. } => {
                        return ReleaseStep::View(fragment);
                    },
                    RegionKind::Guard => {
                        return ReleaseStep::Progress;
                    },
                }
            },
            None => {},
        }
        match self.permits.pop() {
            Some(object) => {
                assert(self.permits@ =~= this.permits.drop_last());
                assert(this.permits[this.permits.len() - 1] == object);
                let core = self.core_of(object);
                return ReleaseStep::Permit { object, core };
            },
            None => {},
        }
        if !self.ledger_complete {
            self.take_owners(space, regions);
            self.ledger_complete = true;
            return ReleaseStep::Ledger;
        }
        match self.views.pop() {
            Some(view) => {
                assert(self.views@ =~= this.views.drop_last());
                ReleaseStep::Object(view)
            },
            None => ReleaseStep::Finished,
        }
    }
}

/// Whole pages stay whole pages.
proof fn multiples_stay(offset: int, remaining: int, pages: int)
    requires
        offset % PAGE_SIZE as int == 0,
        remaining % PAGE_SIZE as int == 0,
    ensures
        (offset + pages * PAGE_SIZE) % PAGE_SIZE as int == 0,
        (remaining - pages * PAGE_SIZE) % PAGE_SIZE as int == 0,
        (remaining - pages * PAGE_SIZE) / PAGE_SIZE as int == remaining / PAGE_SIZE as int - pages,
{
}

/// Removing one entry removes no other.
proof fn removal_keeps_others(views: Seq<ObjectView>, k: int)
    requires
        0 <= k < views.len(),
    ensures
        forall|v: ObjectView| views.remove(k).contains(v) ==> #[trigger] views.contains(v),
        forall|v: ObjectView| #[trigger]
            views.contains(v) && v != views[k] ==> views.remove(k).contains(v),
{
    let after = views.remove(k);
    assert forall|v: ObjectView| after.contains(v) implies #[trigger] views.contains(v) by {
        let i = choose|i: int| 0 <= i < after.len() && after[i] == v;
        if i < k {
            assert(views[i] == v);
        } else {
            assert(views[i + 1] == v);
        }
    }
    assert forall|v: ObjectView| #[trigger] views.contains(v) && v != views[k] implies after.contains(
        v,
    ) by {
        let i = choose|i: int| 0 <= i < views.len() && views[i] == v;
        if i < k {
            assert(after[i] == v);
        } else {
            assert(after[i - 1] == v);
        }
    }
}

/// One entry more takes over what is held of its own object, if it does.
proof fn taken_one_more(views: Seq<RetiringObjectView>, n: int, regions: Seq<Region>, object: u64)
    requires
        0 <= n < views.len(),
    ensures
        taken_below(views, n + 1, regions, object) <==> taken_below(views, n, regions, object) || (
        views[n].object == object && views[n].owner is None && !address_space::referenced(
            regions,
            object,
        )),
{
}

/// Letting go of one object, if the ledger shows it nowhere, lets go of nothing else.
proof fn released_one(
    before: Seq<ObjectView>,
    after: Seq<ObjectView>,
    object: u64,
    regions: Seq<Region>,
    v: ObjectView,
)
    requires
        address_space::views_wf(before),
        address_space::holds_object(before, object) && !address_space::referenced(regions, object)
            ==> exists|k: int| #[trigger]
            address_space::view_at(before, k, object) && after == before.remove(k),
        !(address_space::holds_object(before, object) && !address_space::referenced(
            regions,
            object,
        )) ==> after == before,
    ensures
        after.contains(v) <==> before.contains(v) && !(v.object == object
            && !address_space::referenced(regions, object)),
{
    if address_space::holds_object(before, object) && !address_space::referenced(regions, object) {
        let k = choose|k: int| #[trigger]
            address_space::view_at(before, k, object) && after == before.remove(k);
        removal_keeps_others(before, k);
        if before.contains(v) && v.object == object {
            let i = choose|i: int| 0 <= i < before.len() && before[i] == v;
            assert(i == k);
        }
        if after.contains(v) && v.object == object {
            let i = choose|i: int| 0 <= i < after.len() && after[i] == v;
            let j = if i < k {
                i
            } else {
                i + 1
            };
            assert(before[j] == v);
            assert(j != k);
        }
    } else if before.contains(v) && v.object == object {
        let i = choose|i: int| 0 <= i < before.len() && before[i] == v;
        assert(address_space::view_at(before, i, object));
    }
}

/// Letting go of one object lets go of no other.
proof fn holds_others(views: Seq<ObjectView>, k: int, object: u64)
    requires
        0 <= k < views.len(),
        views[k].object != object,
    ensures
        address_space::holds_object(views.remove(k), object) <==> address_space::holds_object(
            views,
            object,
        ),
{
    let after = views.remove(k);
    if address_space::holds_object(views, object) {
        let i = choose|i: int| address_space::view_at(views, i, object);
        let j = if i < k {
            i
        } else {
            i - 1
        };
        assert(address_space::view_at(after, j, object));
    }
    if address_space::holds_object(after, object) {
        let j = choose|j: int| address_space::view_at(after, j, object);
        let i = if j < k {
            j
        } else {
            j + 1
        };
        assert(address_space::view_at(views, i, object));
    }
}

/// Changing who owns an object moves no entry.
proof fn retiring_views_stay(before: Seq<RetiringObjectView>, after: Seq<RetiringObjectView>)
    requires
        before.len() == after.len(),
        forall|i: int|
            0 <= i < before.len() ==> (#[trigger] after[i]).object == before[i].object,
    ensures
        forall|k: int, object: u64|
            retiring_at(before, k, object) ==> #[trigger] retiring_at(after, k, object),
{
    assert forall|k: int, object: u64| retiring_at(before, k, object) implies #[trigger] retiring_at(
        after,
        k,
        object,
    ) by {
        assert forall|j: int| 0 <= j < k implies (#[trigger] after[j]).object != object by {
            assert(before[j].object != object);
        }
    }
}

/// Entry `i` is as before, but what the address space held of the object, one of `held`,
/// is taken over exactly if the ledger shows it nowhere any more.
pub open spec fn owner_taken(
    before: Seq<RetiringObjectView>,
    after: RetiringObjectView,
    i: int,
    regions: Seq<Region>,
    held: Seq<ObjectView>,
) -> bool {
    &&& after.object == before[i].object
    &&& after.core == before[i].core
    &&& before[i].owner is Some ==> after.owner == before[i].owner
    &&& before[i].owner is None ==> {
        &&& after.owner is Some <==> address_space::holds_object(held, after.object)
            && !address_space::referenced(regions, after.object)
        &&& after.owner matches Some(core) ==> held.contains(
            ObjectView { object: after.object, core },
        )
    }
}

/// What the address space held of the objects has been taken over, for each that the
/// ledger shows nowhere any more; nothing else has changed.
pub open spec fn owners_taken(
    before: RetiringView,
    after: RetiringView,
    space: SpaceView,
    space_after: SpaceView,
    regions: Seq<Region>,
) -> bool {
    &&& after == (RetiringView { views: after.views, ..before })
    &&& after.views.len() == before.views.len()
    &&& forall|i: int|
        0 <= i < after.views.len() ==> owner_taken(
            before.views,
            #[trigger] after.views[i],
            i,
            regions,
            space.views,
        )
    &&& space_after == (SpaceView { views: space_after.views, ..space })
    &&& address_space::views_wf(space_after.views)
    &&& forall|v: ObjectView| #[trigger]
        space_after.views.contains(v) <==> space.views.contains(v) && !taken_below(
            before.views,
            before.views.len() as int,
            regions,
            v.object,
        )
}

/// What was held of the object goes to one of the first `n` entries: the entry has no owner
/// yet, and the ledger shows the object nowhere any more.
pub open spec fn taken_below(
    views: Seq<RetiringObjectView>,
    n: int,
    regions: Seq<Region>,
    object: u64,
) -> bool {
    exists|i: int|
        0 <= i < n && (#[trigger] views[i]).object == object && views[i].owner is None
            && !address_space::referenced(regions, object)
}

/// What was handed over is held no longer: an owner that a change took over has left the
/// address space.
pub proof fn owner_is_in_one_place(
    before: RetiringView,
    after: RetiringView,
    space: SpaceView,
    space_after: SpaceView,
    regions: Seq<Region>,
    i: int,
)
    requires
        owners_taken(before, after, space, space_after, regions),
        0 <= i < after.views.len(),
        before.views[i].owner is None,
        after.views[i].owner is Some,
    ensures
        !address_space::holds_object(space_after.views, after.views[i].object),
{
    let object = after.views[i].object;
    assert(owner_taken(before.views, after.views[i], i, regions, space.views));
    assert(taken_below(before.views, before.views.len() as int, regions, object)) by {
        assert(before.views[i].object == object);
    }
    assert forall|k: int| !address_space::view_at(space_after.views, k, object) by {
        if address_space::view_at(space_after.views, k, object) {
            assert(space_after.views.contains(space_after.views[k]));
        }
    }
}

/// One step of the release, whatever the address space holds: it did `step`, and unless
/// that was the last one there is less left to do. A backing is given back run by run;
/// when the ledger forgets the change only the owners of the objects can change.
pub open spec fn advanced(before: RetiringView, after: RetiringView, step: ReleaseStep) -> bool {
    &&& after.wf()
    &&& step != ReleaseStep::Finished ==> after.steps_left() < before.steps_left()
    &&& if before.tables.len() == 0 && before.backing is Some {
        step is Backing && after == (RetiringView {
            tables_complete: true,
            backing: after.backing,
            backing_permits: after.backing_permits,
            ..before
        })
    } else {
        &&& step == before.next()
        &&& step == ReleaseStep::Ledger ==> after == (RetiringView {
            views: after.views,
            ..before.after()
        }) && after.views.len() == before.views.len()
        &&& step != ReleaseStep::Ledger ==> after == before.after()
    }
}

/// Call `k` of a release made step `k` of it.
pub open spec fn advanced_at(run: Seq<RetiringView>, steps: Seq<ReleaseStep>, k: int) -> bool {
    advanced(run[k], run[k + 1], steps[k])
}

/// A release, call by call: `run` are its states and `steps` what the calls did.
pub open spec fn release_run(run: Seq<RetiringView>, steps: Seq<ReleaseStep>) -> bool {
    &&& run.len() == steps.len() + 1
    &&& run[0].wf()
    &&& !run[0].ledger_complete
    &&& forall|k: int| 0 <= k < steps.len() ==> #[trigger] advanced_at(run, steps, k)
}

/// Nothing is left to release.
pub open spec fn released_all(change: RetiringView) -> bool {
    &&& change.tables.len() == 0
    &&& change.fragments.len() == 0
    &&& change.permits.len() == 0
    &&& change.backing is None
    &&& change.views.len() == 0
    &&& change.ledger_complete
}

/// Every state of a release is well formed, and once the ledger has forgotten the change
/// it stays so.
proof fn ledger_stays(run: Seq<RetiringView>, steps: Seq<ReleaseStep>, i: int, j: int)
    requires
        release_run(run, steps),
        0 <= i <= j < run.len(),
    ensures
        run[j].wf(),
        run[i].ledger_complete ==> run[j].ledger_complete,
    decreases j,
{
    if j > 0 {
        assert(advanced_at(run, steps, j - 1));
        if i < j {
            ledger_stays(run, steps, i, j - 1);
        }
    }
}

/// The ledger forgets the change in one of the steps before it has forgotten it.
proof fn ledger_step_exists(run: Seq<RetiringView>, steps: Seq<ReleaseStep>, j: int)
    requires
        release_run(run, steps),
        0 <= j < run.len(),
        run[j].ledger_complete,
    ensures
        exists|m: int| 0 <= m < j && #[trigger] steps[m] == ReleaseStep::Ledger,
    decreases j,
{
    assert(j > 0);
    assert(advanced_at(run, steps, j - 1));
    ledger_stays(run, steps, j - 1, j - 1);
    if run[j - 1].ledger_complete {
        ledger_step_exists(run, steps, j - 1);
        let m = choose|m: int| 0 <= m < j - 1 && #[trigger] steps[m] == ReleaseStep::Ledger;
        assert(steps[m] == ReleaseStep::Ledger);
    } else {
        assert(steps[j - 1] == ReleaseStep::Ledger);
    }
}

/// A release as a whole. Every call but a final one brings it nearer to its end, so it
/// comes there; the end is reported only when nothing is left and the ledger has
/// forgotten the change, and from then on every call reports it and changes nothing. The
/// ledger forgets the change once. Every permit is given back before the ledger forgets
/// the change, and no object is let go before that.
pub proof fn release_comes_to_its_end(
    run: Seq<RetiringView>,
    steps: Seq<ReleaseStep>,
    a: int,
    b: int,
)
    requires
        release_run(run, steps),
        0 <= a < steps.len(),
        0 <= b < steps.len(),
    ensures
        steps[a] != ReleaseStep::Finished ==> run[a + 1].steps_left() < run[a].steps_left(),
        steps[a] == ReleaseStep::Finished <==> released_all(run[a]),
        steps[a] == ReleaseStep::Finished && a <= b ==> steps[b] == ReleaseStep::Finished
            && run[b] == run[a],
        steps[a] == ReleaseStep::Finished ==> exists|m: int|
            0 <= m < a && #[trigger] steps[m] == ReleaseStep::Ledger,
        steps[a] == ReleaseStep::Ledger && steps[b] == ReleaseStep::Ledger ==> a == b,
        steps[a] is Permit && steps[b] == ReleaseStep::Ledger ==> a < b,
        steps[a] == ReleaseStep::Ledger && steps[b] is Object ==> a < b,
        steps[a] is Permit && steps[b] is Object ==> a < b,
    decreases b,
{
    assert(advanced_at(run, steps, a));
    assert(advanced_at(run, steps, b));
    ledger_stays(run, steps, a, a);
    ledger_stays(run, steps, b, b);
    if a < b {
        ledger_stays(run, steps, a + 1, b);
    } else if b < a {
        ledger_stays(run, steps, b, a);
        ledger_stays(run, steps, b + 1, a);
    }
    if steps[a] == ReleaseStep::Finished {
        ledger_step_exists(run, steps, a);
        if a < b {
            release_comes_to_its_end(run, steps, a, b - 1);
            assert(advanced_at(run, steps, b - 1));
            assert(run[b] == run[a]);
        }
    }
}

/// So a release is over after as many calls as there were steps left at most.
pub proof fn release_is_bounded(run: Seq<RetiringView>, steps: Seq<ReleaseStep>, n: int)
    requires
        release_run(run, steps),
        0 <= n < run.len(),
        forall|k: int| 0 <= k < n ==> #[trigger] steps[k] != ReleaseStep::Finished,
    ensures
        n <= run[0].steps_left() - run[n].steps_left(),
        run[n].steps_left() >= 0,
    decreases n,
{
    let at = run[n];
    ledger_stays(run, steps, 0, n);
    table_steps_count(at.tables);
    fragment_steps_count(at.fragments);
    if n > 0 {
        release_is_bounded(run, steps, n - 1);
        assert(advanced_at(run, steps, n - 1));
        assert(steps[n - 1] != ReleaseStep::Finished);
    }
}

/// What is left of a run of frames from page `start` on, as far as `remaining` bytes reach.
pub open spec fn run_given_back(
    backing: backing::BackingState,
    start: int,
    remaining: usize,
) -> BackingExtent {
    let run = backing.extents[backing::holder(backing.extents, start)];
    let end = backing::least(run.end(), start + remaining / PAGE_SIZE);
    BackingExtent {
        offset_pages: start as usize,
        base: run.frame(start) as usize,
        pages: (end - start) as usize,
        holding: run.holding,
    }
}

/// One run of frames is given back, as far as the cursor and the run reach. A run that is
/// cut takes a place for each part that is split off.
pub open spec fn backing_released(
    before: RetiringView,
    after: RetiringView,
    space: SpaceView,
    space_after: SpaceView,
    cursor: BackingRetireCursor,
    extent: BackingExtent,
) -> bool {
    let start = (cursor.next_offset / PAGE_SIZE) as int;
    &&& 1 <= extent.pages <= cursor.remaining as int / PAGE_SIZE as int
    &&& extent.offset_pages == start
    &&& exists|i: int| #[trigger]
        address_space::releases(
            space.backings,
            i,
            cursor.identity,
            cursor.next_offset,
            cursor.remaining,
            before.backing_permits,
        ) && ({
            let backing = space.backings[i];
            let run = backing.extents[backing::holder(backing.extents, start)];
            &&& extent == run_given_back(backing, start, cursor.remaining)
            &&& after.backing_permits == before.backing_permits - backing::cuts(
                run,
                start,
                start + extent.pages,
            )
            &&& address_space::without_pages(space, space_after, i, start, start + extent.pages)
        })
    &&& after == (RetiringView {
        tables_complete: true,
        backing: if extent.pages * PAGE_SIZE < cursor.remaining {
            Some(
                BackingRetireCursor {
                    identity: cursor.identity,
                    next_offset: (cursor.next_offset + extent.pages * PAGE_SIZE) as usize,
                    remaining: (cursor.remaining - extent.pages * PAGE_SIZE) as usize,
                },
            )
        } else {
            None
        },
        backing_permits: after.backing_permits,
        ..before
    })
}

/// What a release does not touch stays where it is: the pages other than those that were
/// given back are still owned, in the same frames.
pub proof fn release_leaves_the_rest(
    before: SpaceView,
    after: SpaceView,
    i: int,
    start: int,
    end: int,
    p: int,
    f: int,
)
    requires
        before.wf(),
        0 <= i < before.backings.len(),
        backing::owned(before.backings[i].extents, start),
        ({
            let runs = before.backings[i].extents;
            start < end <= runs[backing::holder(runs, start)].end()
        }),
        address_space::without_pages(before, after, i, start, end),
        !(start <= p < end),
        backing::in_frame(before.backings[i].extents, p, f),
    ensures
        exists|k: int|
            0 <= k < after.backings.len() && (#[trigger] after.backings[k]).identity
                == before.backings[i].identity && backing::in_frame(
                after.backings[k].extents,
                p,
                f,
            ),
{
    let left = before.backings[i].without(start, end);
    backing::release_moves_nothing(before.backings[i], start, end, p, f);
    let g = choose|g: int| backing::held_by(left.extents, g, p) && f == left.extents[g].frame(p);
    assert(backing::held_by(left.extents, g, p));
    assert(after.backings[i] == left);
}

/// Who waits for a change, and how far it has come.
#[derive(Clone, Copy, Debug, PartialEq, Eq, Structural)]
pub enum CompletionStage {
    /// The change is not committed yet.
    Prepared,
    /// Committed; the harts are being told.
    Published,
    /// Every hart has heard of it; its remains are released.
    Retiring,
    Complete,
}

/// Follows a change from its commit to the answer of its caller.
#[derive(Clone, Copy, Debug, PartialEq, Eq, Structural)]
pub struct MemoryChangeCompletion {
    pub stage: CompletionStage,
    /// The thread may not be told to have ended before its result is written.
    pub result_obligation: bool,
}

/// What a batch of releases comes to.
#[derive(Clone, Copy, Debug, PartialEq, Eq, Structural)]
pub enum RetireTurn {
    /// Release the next piece.
    Again,
    /// The budget is used up; go on later.
    Yield,
    /// Everything is released: count the change off with its process, then let the
    /// thread's obligation go if it has one, then answer the caller.
    Finish { release_obligation: bool },
}

impl MemoryChangeCompletion {
    pub fn new(result_obligation: bool) -> (r: MemoryChangeCompletion)
        ensures
            r == (MemoryChangeCompletion {
                stage: CompletionStage::Prepared,
                result_obligation,
            }),
    {
        MemoryChangeCompletion { stage: CompletionStage::Prepared, result_obligation }
    }

    /// The change is committed.
    pub fn install(&mut self)
        requires
            old(self).stage == CompletionStage::Prepared,
        ensures
            *final(self) == (MemoryChangeCompletion {
                stage: CompletionStage::Published,
                ..*old(self)
            }),
    {
        self.stage = CompletionStage::Published;
    }

    /// Every hart has heard of it.
    pub fn complete(&mut self)
        requires
            old(self).stage == CompletionStage::Published,
        ensures
            *final(self) == (MemoryChangeCompletion {
                stage: CompletionStage::Retiring,
                ..*old(self)
            }),
    {
        self.stage = CompletionStage::Retiring;
    }

    /// A step of the release was `step`, number `used` of at most `budget`.
    pub fn advance_retire(&mut self, step: ReleaseStep, used: usize, budget: usize) -> (r: RetireTurn)
        requires
            old(self).stage == CompletionStage::Retiring,
            0 < used <= budget,
        ensures
            r == if step == ReleaseStep::Finished {
                RetireTurn::Finish { release_obligation: old(self).result_obligation }
            } else if used == budget {
                RetireTurn::Yield
            } else {
                RetireTurn::Again
            },
            *final(self) == if step == ReleaseStep::Finished {
                MemoryChangeCompletion { stage: CompletionStage::Complete, result_obligation: false }
            } else {
                *old(self)
            },
    {
        match step {
            ReleaseStep::Finished => {
                let release_obligation: bool = self.result_obligation;
                self.result_obligation = false;
                self.stage = CompletionStage::Complete;
                RetireTurn::Finish { release_obligation }
            },
            _ => if used == budget {
                RetireTurn::Yield
            } else {
                RetireTurn::Again
            },
        }
    }
}

/// A change of protection.
#[derive(Clone, Copy, Debug, PartialEq, Eq, Structural)]
pub struct ProtectIntent {
    pub from: Protection,
    pub to: Protection,
}

/// Memory becomes executable or ceases to be.
pub open spec fn touches_code(intent: ProtectIntent) -> bool {
    intent.from == Protection::ReadExecute || intent.to == Protection::ReadExecute
}

/// Some part becomes executable or ceases to be.
pub open spec fn concerns_code(intents: Seq<ProtectIntent>) -> bool {
    exists|i: int| 0 <= i < intents.len() && touches_code(#[trigger] intents[i])
}

/// Whether a change of protection makes harts forget code: if any part becomes executable
/// or ceases to be.
pub fn needs_instruction_fence(intents: &Vec<ProtectIntent>) -> (r: bool)
    ensures
        r == concerns_code(intents@),
{
    let mut index: usize = 0;
    while index < intents.len()
        invariant
            index <= intents@.len(),
            forall|i: int| 0 <= i < index ==> !touches_code(#[trigger] intents@[i]),
        decreases intents@.len() - index,
    {
        let intent = intents[index];
        if intent.from == Protection::ReadExecute || intent.to == Protection::ReadExecute {
            assert(touches_code(intents@[index as int]));
            return true;
        }
        index = index + 1;
    }
    false
}

/// How many table frames the parts hold.
pub open spec fn frame_count(outcomes: Seq<TableOutcomeView>) -> int
    decreases outcomes.len(),
{
    if outcomes.len() == 0 {
        0
    } else {
        frame_count(outcomes.drop_last()) + outcomes.last().retired.len()
            + outcomes.last().unused.len()
    }
}

/// Table frames are handed out one by one and none is lost: a step that hands one out hands out one
/// of the last part, which has one fewer then, and no other part changes; a step that hands out
/// none drops a part that has none. It is over exactly if no part is left.
pub proof fn table_frames_are_handed_out_one_by_one(outcomes: Seq<TableOutcomeView>)
    ensures
        next_table(outcomes) is Complete <==> outcomes.len() == 0,
        next_table(outcomes) matches TableRetireStep::Owner(frame) ==> {
            &&& outcomes.last().retired.contains(frame) || outcomes.last().unused.contains(frame)
            &&& frame_count(after_table(outcomes)) == frame_count(outcomes) - 1
            &&& after_table(outcomes).len() == outcomes.len()
            &&& after_table(outcomes).drop_last() == outcomes.drop_last()
        },
        next_table(outcomes) is Progress ==> {
            &&& outcomes.last().retired.len() == 0 && outcomes.last().unused.len() == 0
            &&& after_table(outcomes) == outcomes.drop_last()
            &&& frame_count(after_table(outcomes)) == frame_count(outcomes)
        },
{
    if outcomes.len() > 0 {
        let last = outcomes.last();
        let rest = outcomes.drop_last();
        if last.retired.len() > 0 {
            assert(last.retired[last.retired.len() - 1] == last.retired.last());
            let kept = TableOutcomeView { retired: last.retired.drop_last(), ..last };
            assert(rest.push(kept).drop_last() =~= rest);
        } else if last.unused.len() > 0 {
            assert(last.unused[last.unused.len() - 1] == last.unused.last());
            let kept = TableOutcomeView { unused: last.unused.drop_last(), ..last };
            assert(rest.push(kept).drop_last() =~= rest);
        }
    }
}

/// A piece of anonymous memory whose pages go with it is given back in full: from its offset on, as
/// many bytes as it had, of its own backing. Pages that stay, views and guards give nothing back.
pub proof fn pieces_are_given_back_in_full(change: RetiringView)
    requires
        change.wf(),
        change.tables.len() == 0,
        change.backing is None,
        change.fragments.len() > 0,
    ensures
        ({
            let piece = change.fragments.last();
            let after = change.after();
            &&& after.fragments == change.fragments.drop_last()
            &&& after.permits == change.permits && after.views == change.views
                && after.ledger_complete == change.ledger_complete
            &&& match piece.kind {
                RegionKind::Mapping { backing: BackingView::Anonymous { identity, offset }, .. } => {
                    &&& after.backing is Some <==> piece.backing_retire is Release
                    &&& after.backing matches Some(cursor) ==> cursor.identity == identity
                        && cursor.next_offset == offset && cursor.remaining == piece.range.pages
                        * 4096
                },
                _ => after.backing is None,
            }
        }),
{
}

/// What the next step is, in order: table frames, then what is given back, then pieces, then
/// permits, then the ledger, then objects; and it is over when nothing is left. Each step takes the
/// last of its list.
pub proof fn releases_go_in_order(change: RetiringView)
    requires
        change.wf(),
    ensures
        change.next() is Table ==> change.tables.len() > 0,
        change.next() is View ==> change.tables.len() == 0 && change.backing is None
            && change.fragments.len() > 0,
        change.next() matches ReleaseStep::Permit { object, core } ==> {
            &&& change.tables.len() == 0 && change.backing is None && change.fragments.len() == 0
            &&& object == change.permits.last() && change.after().permits
                == change.permits.drop_last()
            &&& exists|k: int|
                0 <= k < change.views.len() && (#[trigger] change.views[k]).object == object
                    && change.views[k].core == core
        },
        change.next() is Ledger <==> change.tables.len() == 0 && change.backing is None
            && change.fragments.len() == 0 && change.permits.len() == 0 && !change.ledger_complete,
        change.next() matches ReleaseStep::Object(view) ==> {
            &&& change.ledger_complete && view == change.views.last()
            &&& change.after().views == change.views.drop_last()
        },
        change.next() is Finished <==> released_all(change),
{
    if change.next() is Permit {
        let object = change.permits.last();
        assert(known(change.views, change.permits[change.permits.len() - 1]));
        let k = choose|k: int| retiring_at(change.views, k, object);
        assert(change.views[k].object == object);
    }
}

/// A run that is given back begins at the page asked for, in the frame that the backing has for it,
/// and reaches no further than the run or the bytes that are left do.
pub proof fn runs_are_given_back_from_their_frames(
    backing: backing::BackingState,
    start: int,
    remaining: usize,
)
    requires
        backing.wf(),
        backing::owned(backing.extents, start),
        remaining >= 4096,
    ensures
        ({
            let given = run_given_back(backing, start, remaining);
            &&& given.offset_pages == start && given.pages >= 1
            &&& given.pages * 4096 <= remaining
            &&& backing::in_frame(backing.extents, start, given.base as int)
            &&& backing::in_frame(
                backing.extents,
                start + given.pages - 1,
                given.base + given.pages - 1,
            )
        }),
{
    let i = backing::holder(backing.extents, start);
    assert(backing::held_by(backing.extents, i, start));
    let run = backing.extents[i];
    assert(run.wf());
    let given = run_given_back(backing, start, remaining);
    assert(backing::held_by(backing.extents, i, start + given.pages - 1));
}

/// Code is concerned exactly if some part was executable or becomes so.
pub proof fn code_is_concerned(intents: Seq<ProtectIntent>)
    ensures
        concerns_code(intents) <==> exists|i: int|
            0 <= i < intents.len() && ((#[trigger] intents[i]).from is ReadExecute
                || intents[i].to is ReadExecute),
{
    if concerns_code(intents) {
        let i = choose|i: int| 0 <= i < intents.len() && touches_code(#[trigger] intents[i]);
        assert(intents[i].from is ReadExecute || intents[i].to is ReadExecute);
    }
    if exists|i: int|
        0 <= i < intents.len() && ((#[trigger] intents[i]).from is ReadExecute
            || intents[i].to is ReadExecute) {
        let i = choose|i: int|
            0 <= i < intents.len() && ((#[trigger] intents[i]).from is ReadExecute
                || intents[i].to is ReadExecute);
        assert(touches_code(intents[i]));
    }
}

/// Giving a run back moves the cursor on by just what was given, takes a place for each part that is
/// split off, and is over exactly when nothing is left; nothing else of the change is touched.
pub proof fn giving_back_moves_the_cursor_on(
    before: RetiringView,
    after: RetiringView,
    space: SpaceView,
    space_after: SpaceView,
    cursor: BackingRetireCursor,
    extent: BackingExtent,
)
    requires
        backing_released(before, after, space, space_after, cursor, extent),
        cursor.remaining % PAGE_SIZE == 0,
        cursor.next_offset % PAGE_SIZE == 0,
        cursor.next_offset + cursor.remaining <= usize::MAX,
    ensures
        1 <= extent.pages && extent.pages * 4096 <= cursor.remaining,
        extent.offset_pages * 4096 == cursor.next_offset,
        match after.backing {
            Some(next) => {
                &&& next.identity == cursor.identity
                &&& next.next_offset == cursor.next_offset + extent.pages * 4096
                &&& next.remaining == cursor.remaining - extent.pages * 4096
            },
            None => extent.pages * 4096 == cursor.remaining,
        },
        after.backing_permits <= before.backing_permits <= after.backing_permits + 2,
        after.fragments == before.fragments && after.permits == before.permits && after.views
            == before.views && after.tables == before.tables && after.ledger_complete
            == before.ledger_complete,
{
    let start = (cursor.next_offset / PAGE_SIZE) as int;
    let i = choose|i: int| #[trigger]
        address_space::releases(
            space.backings,
            i,
            cursor.identity,
            cursor.next_offset,
            cursor.remaining,
            before.backing_permits,
        ) && ({
            let backing = space.backings[i];
            let run = backing.extents[backing::holder(backing.extents, start)];
            &&& extent == run_given_back(backing, start, cursor.remaining)
            &&& after.backing_permits == before.backing_permits - backing::cuts(
                run,
                start,
                start + extent.pages,
            )
            &&& address_space::without_pages(space, space_after, i, start, start + extent.pages)
        });
    let backing = space.backings[i];
    let run = backing.extents[backing::holder(backing.extents, start)];
    assert(backing::cuts(run, start, start + extent.pages) <= 2);
}

} // verus!
