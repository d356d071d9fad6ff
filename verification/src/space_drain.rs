//! Taking an address space apart in bounded batches, once nobody executes in it.
//!
//! Everything that has to be released outside is handed out one piece at a time, in a
//! fixed order: views of objects with their regions, runs of frames, page tables, and
//! last the root table.
use vstd::prelude::*;

use crate::backing::{BackingExtent, BackingState, OwnedBacking};

verus! {

/// A region of the ledger that is still there.
#[derive(Clone, Copy, Debug, PartialEq, Eq, Structural)]
pub struct DrainRegion {
    /// The memory object behind it, if it is a view of one.
    pub object: Option<u64>,
    /// The region carries a permit to write to the object.
    pub permit: bool,
}

/// A step that the page table still has to take.
#[derive(Clone, Copy, Debug, PartialEq, Eq, Structural)]
pub enum TableDrainStep {
    Progress,
    /// The frame of a table is free.
    Retired(usize),
}

/// Something that is released outside.
#[derive(Clone, Copy, Debug, PartialEq, Eq, Structural)]
pub enum RetiredSpaceResource {
    /// A view of an object: the permit to write to it, if there is one, and then, with the
    /// last view of the object, the hold on it.
    View { object: u64, permit: bool, last: bool },
    Backing(BackingExtent),
    Table(usize),
    /// The root table, and the binding to the pool.
    Root,
}

/// How far the address space is taken apart.
#[derive(Clone, Copy, Debug, PartialEq, Eq, Structural)]
pub enum DrainStage {
    Ledger,
    Backings,
    Tables,
    Root,
    Done,
}

/// An address space that is taken apart.
pub struct SpaceDrain {
    stage: DrainStage,
    regions: Vec<DrainRegion>,
    /// The objects that are held.
    views: Vec<u64>,
    backings: Vec<OwnedBacking>,
    /// The steps of the page table, the next one last.
    tables: Vec<TableDrainStep>,
    /// Taken out, but not handed out yet.
    pending: Option<RetiredSpaceResource>,
    /// Handed out, to be collected before the next batch.
    retired: Option<RetiredSpaceResource>,
}

/// An address space that is taken apart, as a value.
#[verifier::ext_equal]
pub struct DrainView {
    pub stage: DrainStage,
    pub regions: Seq<DrainRegion>,
    pub views: Seq<u64>,
    pub backings: Seq<BackingState>,
    pub tables: Seq<TableDrainStep>,
    pub pending: Option<RetiredSpaceResource>,
    pub retired: Option<RetiredSpaceResource>,
}

impl View for SpaceDrain {
    type V = DrainView;

    closed spec fn view(&self) -> DrainView {
        DrainView {
            stage: self.stage,
            regions: self.regions@,
            views: self.views@,
            backings: self.backings@.map_values(|b: OwnedBacking| b@),
            tables: self.tables@,
            pending: self.pending,
            retired: self.retired,
        }
    }
}

/// What the regions hand out, last region first.
pub open spec fn view_resources(regions: Seq<DrainRegion>) -> Seq<RetiredSpaceResource>
    decreases regions.len(),
{
    if regions.len() == 0 {
        Seq::empty()
    } else {
        let rest = view_resources(regions.drop_last());
        match regions.last().object {
            Some(object) => seq![
                RetiredSpaceResource::View {
                    object,
                    permit: regions.last().permit,
                    last: !viewed(regions.drop_last(), object),
                },
            ] + rest,
            None => rest,
        }
    }
}

/// What the runs of one backing hand out, last run first.
pub open spec fn extent_resources(extents: Seq<BackingExtent>) -> Seq<RetiredSpaceResource>
    decreases extents.len(),
{
    if extents.len() == 0 {
        Seq::empty()
    } else {
        seq![RetiredSpaceResource::Backing(extents.last())] + extent_resources(extents.drop_last())
    }
}

/// What the backings hand out, last backing first.
pub open spec fn backing_resources(backings: Seq<BackingState>) -> Seq<RetiredSpaceResource>
    decreases backings.len(),
{
    if backings.len() == 0 {
        Seq::empty()
    } else {
        extent_resources(backings.last().extents) + backing_resources(backings.drop_last())
    }
}

/// What the page table hands out.
pub open spec fn table_resources(tables: Seq<TableDrainStep>) -> Seq<RetiredSpaceResource>
    decreases tables.len(),
{
    if tables.len() == 0 {
        Seq::empty()
    } else {
        let rest = table_resources(tables.drop_last());
        match tables.last() {
            TableDrainStep::Retired(frame) => seq![RetiredSpaceResource::Table(frame)] + rest,
            TableDrainStep::Progress => rest,
        }
    }
}

impl DrainView {
    /// What is still to be handed out, in order.
    pub open spec fn resources(self) -> Seq<RetiredSpaceResource> {
        let pending = match self.pending {
            Some(resource) => seq![resource],
            None => Seq::empty(),
        };
        let root = if self.stage is Done {
            Seq::empty()
        } else {
            seq![RetiredSpaceResource::Root]
        };
        pending + view_resources(self.regions) + backing_resources(self.backings)
            + table_resources(self.tables) + root
    }

    /// How much work is left: one unit for every piece that is looked at, and one for
    /// every piece that is handed out.
    pub open spec fn work_left(self) -> int {
        let looked = self.regions.len() + extent_count(self.backings) + self.tables.len();
        let left = match self.stage {
            // The ledger itself, the end of the page table, the root.
            DrainStage::Ledger => 3int,
            DrainStage::Backings => 2,
            DrainStage::Tables => 2,
            DrainStage::Root => 1,
            DrainStage::Done => 0,
        };
        let root = if self.stage is Done {
            0int
        } else {
            1
        };
        looked + left + self.resources().len() - root
    }

    /// Stages that are over have nothing left.
    pub open spec fn wf(self) -> bool {
        &&& !(self.stage is Ledger) ==> self.regions.len() == 0 && self.views.len() == 0
        &&& !(self.stage is Ledger || self.stage is Backings) ==> self.backings.len() == 0
        &&& (self.stage is Root || self.stage is Done) ==> self.tables.len() == 0
        &&& self.stage is Done ==> self.pending is None
        &&& self.pending != Some(RetiredSpaceResource::Root)
        &&& forall|i: int| 0 <= i < self.backings.len() ==> (#[trigger] self.backings[i]).wf()
            && self.backings[i].extents.len() > 0
        &&& held_once(self.regions, self.views)
    }
}

/// The backings without their last run; a backing without runs is gone.
pub open spec fn without_run(backings: Seq<BackingState>) -> Seq<BackingState> {
    let rest = backings.drop_last();
    let runs = backings.last().extents.drop_last();
    if runs.len() == 0 {
        rest
    } else {
        rest.push(BackingState { extents: runs, ..backings.last() })
    }
}

impl DrainView {
    /// What looking at the next piece leaves, and the units of work that takes. What has to
    /// be released outside is pending then.
    pub open spec fn looked(self) -> (DrainView, int) {
        match self.stage {
            DrainStage::Ledger => if self.regions.len() > 0 {
                let region = self.regions.last();
                let rest = DrainView { regions: self.regions.drop_last(), ..self };
                match region.object {
                    Some(object) => {
                        let last = !viewed(rest.regions, object);
                        (
                            DrainView {
                                views: if last {
                                    self.views.remove(self.views.index_of(object))
                                } else {
                                    self.views
                                },
                                pending: Some(
                                    RetiredSpaceResource::View {
                                        object,
                                        permit: region.permit,
                                        last,
                                    },
                                ),
                                ..rest
                            },
                            1,
                        )
                    },
                    None => (rest, 1),
                }
            } else {
                (DrainView { stage: DrainStage::Backings, ..self }, 1)
            },
            DrainStage::Backings => if self.backings.len() > 0 {
                (
                    DrainView {
                        backings: without_run(self.backings),
                        pending: Some(
                            RetiredSpaceResource::Backing(self.backings.last().extents.last()),
                        ),
                        ..self
                    },
                    1,
                )
            } else {
                (DrainView { stage: DrainStage::Tables, ..self }, 0)
            },
            DrainStage::Tables => if self.tables.len() > 0 {
                (
                    DrainView {
                        tables: self.tables.drop_last(),
                        pending: match self.tables.last() {
                            TableDrainStep::Retired(frame) => Some(
                                RetiredSpaceResource::Table(frame),
                            ),
                            TableDrainStep::Progress => None,
                        },
                        ..self
                    },
                    1,
                )
            } else {
                (DrainView { stage: DrainStage::Root, ..self }, 1)
            },
            _ => (self, 1),
        }
    }

    /// What is pending is handed out, if the budget admits it.
    pub open spec fn handed_out(self, budget: int) -> (DrainView, int) {
        if budget > 0 {
            (DrainView { pending: None, retired: self.pending, ..self }, 1)
        } else {
            (self, 0)
        }
    }

    /// What a batch of at most `budget` units of work leaves, how much it does, and whether
    /// the address space is taken apart with it.
    pub open spec fn drained(self, budget: int) -> (DrainView, int, bool)
        decreases
            budget,
            if self.stage is Backings {
                1int
            } else {
                0
            },
    {
        if self.pending is Some {
            let (after, used) = self.handed_out(budget);
            (after, used, false)
        } else if self.stage is Done {
            (self, 0, true)
        } else if budget <= 0 {
            (self, 0, false)
        } else if self.stage is Root {
            (
                DrainView {
                    stage: DrainStage::Done,
                    retired: Some(RetiredSpaceResource::Root),
                    ..self
                },
                1,
                true,
            )
        } else {
            let (next, used) = self.looked();
            if next.pending is Some {
                let (after, more) = next.handed_out(budget - used);
                (after, used + more, false)
            } else {
                let (after, more, complete) = next.drained(budget - used);
                (after, used + more, complete)
            }
        }
    }
}

/// Every object behind a region is held, once, however many regions are views of it, and no
/// other is.
pub open spec fn held_once(regions: Seq<DrainRegion>, views: Seq<u64>) -> bool {
    &&& forall|i: int, j: int| 0 <= i < j < views.len() ==> #[trigger] views[i] < #[trigger] views[j]
    &&& forall|i: int|
        0 <= i < regions.len() && (#[trigger] regions[i]).object is Some ==> views.contains(
            regions[i].object->0,
        )
    &&& forall|v: int| 0 <= v < views.len() ==> viewed(regions, #[trigger] views[v])
}

/// A region is a view of the object.
pub open spec fn viewed(regions: Seq<DrainRegion>, object: u64) -> bool {
    exists|i: int| 0 <= i < regions.len() && (#[trigger] regions[i]).object == Some(object)
}

/// Whether the object is among those that are held.
fn is_held(views: &Vec<u64>, object: u64) -> (r: bool)
    ensures
        r == views@.contains(object),
{
    let mut index: usize = 0;
    while index < views.len()
        invariant
            index <= views@.len(),
            forall|i: int| 0 <= i < index ==> views@[i] != object,
        decreases views@.len() - index,
    {
        if views[index] == object {
            return true;
        }
        index = index + 1;
    }
    false
}

/// Whether one of the first `end` regions is a view of the object.
fn is_viewed(regions: &Vec<DrainRegion>, end: usize, object: u64) -> (r: bool)
    requires
        end <= regions@.len(),
    ensures
        r == viewed(regions@.take(end as int), object),
{
    let mut index: usize = 0;
    while index < end
        invariant
            index <= end <= regions@.len(),
            forall|i: int| 0 <= i < index ==> (#[trigger] regions@[i]).object != Some(object),
        decreases end - index,
    {
        if let Some(other) = regions[index].object {
            if other == object {
                assert(regions@.take(end as int)[index as int].object == Some(object));
                return true;
            }
        }
        index = index + 1;
    }
    assert forall|i: int| 0 <= i < end implies (#[trigger] regions@.take(end as int)[i]).object
        != Some(object) by {
        assert(regions@[i].object != Some(object));
    }
    false
}

/// Whether every object behind a region is held, once, however many regions are views of it,
/// and no other is: whether the address space can be taken apart.
pub fn is_held_once(regions: &Vec<DrainRegion>, views: &Vec<u64>) -> (r: bool)
    ensures
        r == held_once(regions@, views@),
{
    let mut index: usize = 0;
    while index < regions.len()
        invariant
            index <= regions@.len(),
            forall|i: int|
                0 <= i < index && (#[trigger] regions@[i]).object is Some ==> views@.contains(
                    regions@[i].object->0,
                ),
        decreases regions@.len() - index,
    {
        if let Some(object) = regions[index].object {
            if !is_held(views, object) {
                assert(regions@[index as int].object is Some);
                return false;
            }
        }
        index = index + 1;
    }
    let mut index: usize = 0;
    while index < views.len()
        invariant
            index <= views@.len(),
            forall|i: int, j: int|
                0 <= i < j < index ==> #[trigger] views@[i] < #[trigger] views@[j],
            forall|v: int| 0 <= v < index ==> viewed(regions@, #[trigger] views@[v]),
        decreases views@.len() - index,
    {
        let object: u64 = views[index];
        if index > 0 && views[index - 1] >= object {
            return false;
        }
        let seen: bool = is_viewed(regions, regions.len(), object);
        assert(regions@.take(regions@.len() as int) =~= regions@);
        if !seen {
            assert(!viewed(regions@, views@[index as int]));
            return false;
        }
        index = index + 1;
    }
    true
}

/// How many runs the backings have.
pub open spec fn extent_count(backings: Seq<BackingState>) -> int
    decreases backings.len(),
{
    if backings.len() == 0 {
        0
    } else {
        backings.last().extents.len() + extent_count(backings.drop_last())
    }
}

impl SpaceDrain {
    pub closed spec fn wf(&self) -> bool {
        &&& self@.wf()
        &&& forall|i: int| 0 <= i < self.backings@.len() ==> (#[trigger] self.backings@[i]).wf()
    }

    /// Starts to take an address space apart.
    pub fn new(
        regions: Vec<DrainRegion>,
        views: Vec<u64>,
        backings: Vec<OwnedBacking>,
        tables: Vec<TableDrainStep>,
    ) -> (r: SpaceDrain)
        requires
            held_once(regions@, views@),
            forall|i: int|
                0 <= i < backings@.len() ==> (#[trigger] backings@[i]).wf()
                    && backings@[i]@.extents.len() > 0,
        ensures
            r.wf(),
            r@ == (DrainView {
                stage: DrainStage::Ledger,
                regions: regions@,
                views: views@,
                backings: backings@.map_values(|b: OwnedBacking| b@),
                tables: tables@,
                pending: None,
                retired: None,
            }),
    {
        let drain = SpaceDrain {
            stage: DrainStage::Ledger,
            regions,
            views,
            backings,
            tables,
            pending: None,
            retired: None,
        };
        proof {
            assert forall|i: int| 0 <= i < drain@.backings.len() implies (
            #[trigger] drain@.backings[i]).wf() && drain@.backings[i].extents.len() > 0 by {
                backings@[i].wf_view();
            }
        }
        drain
    }

    /// Collects what was handed out.
    pub fn take_retired(&mut self) -> (r: Option<RetiredSpaceResource>)
        requires
            old(self).wf(),
        ensures
            final(self).wf(),
            r == old(self)@.retired,
            final(self)@ == (DrainView { retired: None, ..old(self)@ }),
    {
        let retired = self.retired;
        self.retired = None;
        retired
    }

    /// Hands out what is pending, if the budget admits it.
    fn step_pending(&mut self, budget: usize) -> (r: usize)
        requires
            old(self).wf(),
            old(self)@.pending is Some,
            old(self)@.retired is None,
        ensures
            final(self).wf(),
            r == if budget > 0 {
                1int
            } else {
                0
            },
            final(self)@ == if budget > 0 {
                DrainView { pending: None, retired: old(self)@.pending, ..old(self)@ }
            } else {
                old(self)@
            },
    {
        if budget == 0 {
            return 0;
        }
        self.retired = self.pending;
        self.pending = None;
        1
    }
}

/// Without the last region, and without the hold on its object if no other region is a view
/// of it, what remains is in order.
proof fn release_last(regions: Seq<DrainRegion>, views: Seq<u64>, v: int)
    requires
        held_once(regions, views),
        regions.len() > 0,
        match regions.last().object {
            Some(object) => 0 <= v < views.len() && views[v] == object,
            None => true,
        },
    ensures
        held_once(
            regions.drop_last(),
            if regions.last().object is Some && !viewed(
                regions.drop_last(),
                regions.last().object->0,
            ) {
                views.remove(v)
            } else {
                views
            },
        ),
{
    let rest = regions.drop_last();
    let n = regions.len() - 1;
    let let_go = regions.last().object is Some && !viewed(rest, regions.last().object->0);
    let kept = if let_go {
        views.remove(v)
    } else {
        views
    };
    assert forall|i: int, j: int| 0 <= i < j < kept.len() implies #[trigger] kept[i]
        < #[trigger] kept[j] by {
        let k = if let_go && i >= v {
            i + 1
        } else {
            i
        };
        let l = if let_go && j >= v {
            j + 1
        } else {
            j
        };
        assert(views[k] < views[l]);
    }
    assert forall|i: int| 0 <= i < rest.len() && (#[trigger] rest[i]).object is Some implies
        kept.contains(rest[i].object->0) by {
        let object = rest[i].object->0;
        assert(regions[i].object is Some);
        assert(views.contains(object));
        let w = choose|w: int| 0 <= w < views.len() && views[w] == object;
        if let_go {
            assert(rest[i].object == Some(object));
            let k = if w < v {
                w
            } else {
                w - 1
            };
            assert(kept[k] == object);
        } else {
            assert(kept[w] == object);
        }
    }
    assert forall|w: int| 0 <= w < kept.len() implies viewed(rest, #[trigger] kept[w]) by {
        let u = if let_go && w >= v {
            w + 1
        } else {
            w
        };
        assert(kept[w] == views[u]);
        assert(viewed(regions, views[u]));
        let i = choose|i: int|
            0 <= i < regions.len() && (#[trigger] regions[i]).object == Some(views[u]);
        assert(regions[i].object == Some(views[u]));
        if i == n {
            if let_go {
                assert(views[v] == views[u]);
                if u < v {
                    assert(views[u] < views[v]);
                } else if v < u {
                    assert(views[v] < views[u]);
                }
            }
        } else {
            assert(rest[i].object == Some(kept[w]));
        }
    }
}

impl SpaceDrain {
    /// Where the object stands among those that are held.
    fn find_view(&self, object: u64) -> (r: usize)
        requires
            self@.views.contains(object),
        ensures
            r < self@.views.len(),
            self@.views[r as int] == object,
    {
        let ghost at = choose|i: int| 0 <= i < self@.views.len() && self@.views[i] == object;
        let mut index: usize = 0;
        while self.views[index] != object
            invariant
                0 <= at < self@.views.len(),
                self@.views[at] == object,
                index <= at,
            decreases self@.views.len() - index,
        {
            assert(self.views.len() == self@.views.len());
            index = index + 1;
        }
        index
    }

    /// Takes the last region out, with what has to be released for it.
    fn drain_region(&mut self)
        requires
            old(self).wf(),
            old(self)@.stage is Ledger,
            old(self)@.regions.len() > 0,
            old(self)@.pending is None,
        ensures
            final(self).wf(),
            final(self)@ == old(self)@.looked().0,
    {
        let ghost before = self@;
        let region = self.regions.pop().unwrap();
        assert(self.regions@ =~= before.regions.drop_last());
        match region.object {
            Some(object) => {
                assert(before.regions[before.regions.len() - 1].object is Some);
                assert(self@.views.contains(object));
                let last: bool = !is_viewed(&self.regions, self.regions.len(), object);
                assert(self.regions@.take(self.regions@.len() as int) =~= self.regions@);
                let ghost first = before.views.index_of(object);
                assert(before.views[first] == object);
                if last {
                    let index = self.find_view(object);
                    proof {
                        if first < index {
                            assert(before.views[first] < before.views[index as int]);
                        } else if index < first {
                            assert(before.views[index as int] < before.views[first]);
                        }
                    }
                    self.views.remove(index);
                    assert(self@.views =~= before.views.remove(first));
                }
                self.pending = Some(
                    RetiredSpaceResource::View { object, permit: region.permit, last },
                );
                proof {
                    release_last(before.regions, before.views, first);
                }
            },
            None => {
                proof {
                    release_last(before.regions, before.views, 0);
                }
            },
        }
        assert(self@.backings =~= before.backings);
        assert(self@.wf());
        assert(self.wf());
    }

    /// Takes the last run of the last backing out.
    fn drain_extent(&mut self)
        requires
            old(self).wf(),
            old(self)@.stage is Backings,
            old(self)@.backings.len() > 0,
            old(self)@.pending is None,
        ensures
            final(self).wf(),
            final(self)@ == old(self)@.looked().0,
            extent_count(final(self)@.backings) == extent_count(old(self)@.backings) - 1,
            seq![RetiredSpaceResource::Backing(old(self)@.backings.last().extents.last())]
                + backing_resources(final(self)@.backings) == backing_resources(
                old(self)@.backings,
            ),
    {
        let ghost before = self@;
        let ghost concrete = self.backings@;
        let last: usize = self.backings.len() - 1;
        assert(before.backings[last as int] == self.backings@[last as int]@);
        let mut backing = self.backings.pop().unwrap();
        assert(self.backings@ =~= concrete.drop_last());
        assert(self@.backings =~= before.backings.drop_last());
        let extent = backing.pop_extent();
        self.pending = Some(RetiredSpaceResource::Backing(extent));
        let ghost rest = before.backings.drop_last();
        let ghost runs = before.backings.last().extents;
        let ghost left = backing@;
        let empty = backing.is_empty();
        if !empty {
            proof {
                backing.wf_view();
            }
            self.backings.push(backing);
            assert(self@.backings =~= rest.push(backing@));
            assert(self@.backings.drop_last() =~= rest);
        }
        proof {
            assert(left == (BackingState {
                extents: runs.drop_last(),
                ..before.backings.last()
            }));
            assert(self@.backings =~= without_run(before.backings));
            assert(extent_resources(runs) == seq![RetiredSpaceResource::Backing(runs.last())]
                + extent_resources(runs.drop_last()));
            assert forall|i: int| 0 <= i < self@.backings.len() implies (
            #[trigger] self@.backings[i]).wf() && self@.backings[i].extents.len() > 0 by {
                if i < rest.len() {
                    assert(before.backings[i].wf());
                }
            }
            assert forall|i: int| 0 <= i < self.backings@.len() implies (
            #[trigger] self.backings@[i]).wf() by {
                if i < rest.len() {
                    assert(concrete[i].wf());
                }
            }
            let one = seq![RetiredSpaceResource::Backing(runs.last())];
            assert(one + backing_resources(self@.backings) =~= backing_resources(before.backings))
                by {
                if empty {
                    assert(extent_resources(runs.drop_last()) =~= Seq::empty());
                }
            }
        }
    }

    /// Looks at the next piece: the units of work that took. If it has to be released
    /// outside, it is pending afterwards.
    fn look(&mut self) -> (r: usize)
        requires
            old(self).wf(),
            old(self)@.pending is None,
            !(old(self)@.stage is Root || old(self)@.stage is Done),
        ensures
            final(self).wf(),
            r <= 1,
            (final(self)@, r as int) == old(self)@.looked(),
            final(self)@.retired == old(self)@.retired,
            final(self)@.resources() == old(self)@.resources(),
            final(self)@.work_left() == old(self)@.work_left() - r,
            r == 0 ==> old(self)@.stage is Backings && final(self)@.stage is Tables
                && final(self)@.pending is None,
            !(final(self)@.stage is Done),
    {
        let ghost before = self@;
        let mut used: usize = 1;
        match self.stage {
            DrainStage::Ledger => {
                if self.regions.len() > 0 {
                    self.drain_region();
                } else {
                    proof {
                        if self@.views.len() > 0 {
                            assert(viewed(self@.regions, self@.views[0]));
                        }
                    }
                    self.stage = DrainStage::Backings;
                }
            },
            DrainStage::Backings => {
                if self.backings.len() == 0 {
                    self.stage = DrainStage::Tables;
                    used = 0;
                } else {
                    self.drain_extent();
                }
            },
            _ => {
                match self.tables.pop() {
                    None => {
                        self.stage = DrainStage::Root;
                    },
                    Some(TableDrainStep::Progress) => {
                        assert(self.tables@ =~= before.tables.drop_last());
                    },
                    Some(TableDrainStep::Retired(frame)) => {
                        assert(self.tables@ =~= before.tables.drop_last());
                        self.pending = Some(RetiredSpaceResource::Table(frame));
                    },
                }
            },
        }
        assert(before.resources() =~= self@.resources());
        assert(self@ =~= before.looked().0);
        used
    }

    /// Takes the address space apart for at most `budget` units of work. A batch ends when
    /// the budget is used up, when something has to be released outside, or when nothing
    /// is left.
    pub fn drain(&mut self, budget: usize) -> (r: (usize, bool))
        requires
            old(self).wf(),
            old(self)@.retired is None,
            budget > 0,
        ensures
            final(self).wf(),
            (final(self)@, r.0 as int, r.1) == old(self)@.drained(budget as int),
            r.0 <= budget,
            final(self)@.work_left() == old(self)@.work_left() - r.0,
            r.1 == (final(self)@.stage is Done),
            r.0 == budget || final(self)@.retired is Some || r.1,
            old(self)@.resources() == (match final(self)@.retired {
                Some(resource) => seq![resource],
                None => Seq::empty(),
            }) + final(self)@.resources(),
            !(old(self)@.stage is Done) ==> (r.1 <==> final(self)@.retired == Some(
                RetiredSpaceResource::Root,
            )),
    {
        let ghost start = self@;
        if self.pending.is_some() {
            let used: usize = self.step_pending(budget);
            assert(start.resources() =~= seq![start.pending->0] + self@.resources());
            return (used, false);
        }
        let mut work: usize = 0;
        loop
            invariant
                start == old(self)@,
                self.wf(),
                self@.retired is None,
                self@.pending is None,
                work <= budget,
                self@.work_left() == start.work_left() - work,
                self@.resources() == start.resources(),
                self@.stage is Done ==> start.stage is Done,
                ({
                    let rest = self@.drained(budget - work);
                    start.drained(budget as int) == (rest.0, work + rest.1, rest.2)
                }),
            decreases
                budget - work,
                match self@.stage {
                    DrainStage::Backings => 1nat,
                    _ => 0,
                },
        {
            let ghost before = self@;
            let done: bool = match self.stage {
                DrainStage::Done => true,
                _ => false,
            };
            assert(Seq::<RetiredSpaceResource>::empty() + self@.resources() =~= self@.resources());
            if done {
                return (work, true);
            }
            if work >= budget {
                return (work, false);
            }
            let root: bool = match self.stage {
                DrainStage::Root => true,
                _ => false,
            };
            if root {
                self.retired = Some(RetiredSpaceResource::Root);
                self.stage = DrainStage::Done;
                assert(before.resources() =~= seq![RetiredSpaceResource::Root] + self@.resources());
                return (work + 1, true);
            }
            let looked: usize = self.look();
            work = work + looked;
            if self.pending.is_some() {
                let ghost middle = self@;
                let used: usize = self.step_pending(budget - work);
                if used > 0 {
                    assert(middle.resources() =~= seq![middle.pending->0] + self@.resources());
                } else {
                    assert(Seq::<RetiredSpaceResource>::empty() + self@.resources()
                        =~= self@.resources());
                }
                return (work + used, false);
            }
        }
    }
}

/// An address space is taken apart with a bounded amount of work: as much as it has
/// pieces, and none is left when it is done.
pub proof fn draining_ends(state: DrainView)
    requires
        state.wf(),
    ensures
        state.work_left() >= 0,
        state.work_left() == 0 <==> state.stage is Done,
        state.stage is Done ==> state.resources().len() == 0,
{
    counts(state.backings);
    if state.stage is Done {
        assert(state.resources() =~= Seq::empty());
    } else {
        let n = state.resources().len();
        assert(state.resources()[n - 1] == RetiredSpaceResource::Root);
    }
}

/// A view of the object is handed out at place `k`.
pub open spec fn hands_out(resources: Seq<RetiredSpaceResource>, k: int, object: u64) -> bool {
    0 <= k < resources.len() && (resources[k] matches RetiredSpaceResource::View {
        object: other,
        ..
    } && other == object)
}

/// Every object is let go of with the last of its views, and no earlier: the views that the
/// regions hand out are of the objects behind them, and one is marked as the last exactly
/// if no view of the same object comes after it.
pub proof fn holds_end_with_the_last_view(regions: Seq<DrainRegion>)
    ensures
        ({
            let resources = view_resources(regions);
            &&& forall|object: u64| #[trigger]
                viewed(regions, object) <==> exists|k: int| #[trigger]
                    hands_out(resources, k, object)
            &&& forall|k: int, object: u64| #[trigger]
                hands_out(resources, k, object) ==> (resources[k]->last <==> forall|m: int|
                    k < m ==> !#[trigger] hands_out(resources, m, object))
        }),
    decreases regions.len(),
{
    let resources = view_resources(regions);
    if regions.len() > 0 {
        let before = regions.drop_last();
        let rest = view_resources(before);
        holds_end_with_the_last_view(before);
        let n = regions.len() - 1;
        let shift = if regions[n].object is Some {
            1int
        } else {
            0
        };
        assert(resources.len() == rest.len() + shift);
        assert forall|k: int| shift <= k < resources.len() implies #[trigger] resources[k]
            == rest[k - shift] by {}
        assert forall|object: u64| #[trigger] viewed(regions, object) <==> exists|k: int| #[trigger]
            hands_out(resources, k, object) by {
            if viewed(regions, object) {
                let i = choose|i: int|
                    0 <= i < regions.len() && (#[trigger] regions[i]).object == Some(object);
                if i == n {
                    assert(hands_out(resources, 0, object));
                } else {
                    assert(before[i].object == Some(object));
                    assert(viewed(before, object));
                    let m = choose|m: int| #[trigger] hands_out(rest, m, object);
                    assert(hands_out(resources, m + shift, object));
                }
            }
            if exists|k: int| #[trigger] hands_out(resources, k, object) {
                let k = choose|k: int| #[trigger] hands_out(resources, k, object);
                if k < shift {
                    assert(regions[n].object == Some(object));
                } else {
                    assert(hands_out(rest, k - shift, object));
                    assert(viewed(before, object));
                    let i = choose|i: int|
                        0 <= i < before.len() && (#[trigger] before[i]).object == Some(object);
                    assert(regions[i].object == Some(object));
                }
            }
        }
        assert forall|k: int, object: u64| #[trigger] hands_out(resources, k, object) implies (
        resources[k]->last <==> forall|m: int|
            k < m ==> !#[trigger] hands_out(resources, m, object)) by {
            if k < shift {
                assert(resources[k]->last == !viewed(before, object));
                if viewed(before, object) {
                    let m = choose|m: int| #[trigger] hands_out(rest, m, object);
                    assert(hands_out(resources, m + shift, object));
                } else {
                    assert forall|m: int| k < m implies !#[trigger] hands_out(
                        resources,
                        m,
                        object,
                    ) by {
                        if hands_out(resources, m, object) {
                            assert(hands_out(rest, m - shift, object));
                        }
                    }
                }
            } else {
                assert(hands_out(rest, k - shift, object));
                if resources[k]->last {
                    assert forall|m: int| k < m implies !#[trigger] hands_out(
                        resources,
                        m,
                        object,
                    ) by {
                        if hands_out(resources, m, object) {
                            assert(hands_out(rest, m - shift, object));
                        }
                    }
                } else {
                    let m = choose|m: int|
                        k - shift < m && #[trigger] hands_out(rest, m, object);
                    assert(hands_out(resources, m + shift, object));
                }
            }
        }
    } else {
        assert forall|object: u64| !#[trigger] viewed(regions, object) by {}
    }
}

/// There is no negative number of runs.
proof fn counts(backings: Seq<BackingState>)
    ensures
        extent_count(backings) >= 0,
    decreases backings.len(),
{
    if backings.len() > 0 {
        counts(backings.drop_last());
    }
}

/// Nothing of an address space is forgotten: every run of every backing and every frame of the
/// page table is handed out, and as many pieces as there are, no more; the root comes last.
pub proof fn everything_is_handed_out(state: DrainView, b: int, e: int, t: int)
    requires
        state.wf(),
    ensures
        ({
            let left = state.resources();
            &&& 0 <= b < state.backings.len() && 0 <= e < state.backings[b].extents.len()
                ==> left.contains(RetiredSpaceResource::Backing(state.backings[b].extents[e]))
            &&& 0 <= t < state.tables.len() ==> (state.tables[t] matches TableDrainStep::Retired(
                frame,
            ) ==> left.contains(RetiredSpaceResource::Table(frame)))
            &&& state.pending matches Some(piece) ==> left.len() > 0 && left[0] == piece
            &&& !(state.stage is Done) ==> left.len() > 0 && left.last()
                == RetiredSpaceResource::Root
            &&& left.len() == (if state.pending is Some {
                1int
            } else {
                0
            }) + view_resources(state.regions).len() + extent_count(state.backings)
                + table_resources(state.tables).len() + (if state.stage is Done {
                0int
            } else {
                1
            })
            &&& view_resources(state.regions).len() <= state.regions.len()
            &&& table_resources(state.tables).len() <= state.tables.len()
        }),
{
    let left = state.resources();
    let pending: Seq<RetiredSpaceResource> = match state.pending {
        Some(piece) => seq![piece],
        None => Seq::empty(),
    };
    let views = view_resources(state.regions);
    let runs = backing_resources(state.backings);
    let frames = table_resources(state.tables);
    runs_are_all_listed(state.backings, b, e);
    frames_are_all_listed(state.tables, t);
    views_are_no_more_than_regions(state.regions);
    if 0 <= b < state.backings.len() && 0 <= e < state.backings[b].extents.len() {
        let piece = RetiredSpaceResource::Backing(state.backings[b].extents[e]);
        let k = choose|k: int| 0 <= k < runs.len() && runs[k] == piece;
        assert(left[pending.len() + views.len() + k] == piece);
    }
    if 0 <= t < state.tables.len() && state.tables[t] is Retired {
        let piece = RetiredSpaceResource::Table(state.tables[t]->Retired_0);
        let k = choose|k: int| 0 <= k < frames.len() && frames[k] == piece;
        assert(left[pending.len() + views.len() + runs.len() + k] == piece);
    }
}

proof fn views_are_no_more_than_regions(regions: Seq<DrainRegion>)
    ensures
        view_resources(regions).len() <= regions.len(),
    decreases regions.len(),
{
    if regions.len() > 0 {
        views_are_no_more_than_regions(regions.drop_last());
    }
}

proof fn runs_are_all_listed(backings: Seq<BackingState>, b: int, e: int)
    ensures
        backing_resources(backings).len() == extent_count(backings),
        0 <= b < backings.len() && 0 <= e < backings[b].extents.len() ==> backing_resources(
            backings,
        ).contains(RetiredSpaceResource::Backing(backings[b].extents[e])),
    decreases backings.len(),
{
    if backings.len() > 0 {
        let rest = backings.drop_last();
        let own = extent_resources(backings.last().extents);
        let upper = backing_resources(rest);
        let all = backing_resources(backings);
        runs_are_all_listed(rest, b, e);
        extents_are_all_listed(backings.last().extents, e);
        if 0 <= b < backings.len() && 0 <= e < backings[b].extents.len() {
            let piece = RetiredSpaceResource::Backing(backings[b].extents[e]);
            if b < rest.len() {
                assert(rest[b] == backings[b]);
                let k = choose|k: int| 0 <= k < upper.len() && upper[k] == piece;
                assert(all[own.len() + k] == piece);
            } else {
                let k = choose|k: int| 0 <= k < own.len() && own[k] == piece;
                assert(all[k] == piece);
            }
        }
    }
}

proof fn extents_are_all_listed(extents: Seq<BackingExtent>, e: int)
    ensures
        extent_resources(extents).len() == extents.len(),
        0 <= e < extents.len() ==> extent_resources(extents).contains(
            RetiredSpaceResource::Backing(extents[e]),
        ),
    decreases extents.len(),
{
    if extents.len() > 0 {
        let rest = extents.drop_last();
        let upper = extent_resources(rest);
        let all = extent_resources(extents);
        extents_are_all_listed(rest, e);
        if 0 <= e < rest.len() {
            let piece = RetiredSpaceResource::Backing(extents[e]);
            assert(rest[e] == extents[e]);
            let k = choose|k: int| 0 <= k < upper.len() && upper[k] == piece;
            assert(all[k + 1] == piece);
        } else if e == rest.len() {
            assert(all[0] == RetiredSpaceResource::Backing(extents[e]));
        }
    }
}

proof fn frames_are_all_listed(tables: Seq<TableDrainStep>, t: int)
    ensures
        table_resources(tables).len() <= tables.len(),
        0 <= t < tables.len() ==> (tables[t] matches TableDrainStep::Retired(frame)
            ==> table_resources(tables).contains(RetiredSpaceResource::Table(frame))),
    decreases tables.len(),
{
    if tables.len() > 0 {
        let rest = tables.drop_last();
        let upper = table_resources(rest);
        let all = table_resources(tables);
        frames_are_all_listed(rest, t);
        if 0 <= t < tables.len() && tables[t] is Retired {
            let piece = RetiredSpaceResource::Table(tables[t]->Retired_0);
            if t < rest.len() {
                assert(rest[t] == tables[t]);
                let k = choose|k: int| 0 <= k < upper.len() && upper[k] == piece;
                let front: int = if tables.last() is Retired {
                    1
                } else {
                    0
                };
                assert(all[k + front] == piece);
            } else {
                assert(all[0] == piece);
            }
        }
    }
}

/// One look concerns one piece, of the stage that is under way: the others keep theirs.
pub proof fn looks_concern_one_piece(state: DrainView)
    requires
        state.wf(),
        state.pending is None,
    ensures
        ({
            let (after, used) = state.looked();
            &&& 0 <= used <= 1
            &&& state.stage is Ledger && state.regions.len() > 0 ==> after.regions
                == state.regions.drop_last() && after.stage is Ledger && after.backings
                == state.backings && after.tables == state.tables
            &&& state.stage is Ledger && state.regions.len() > 0 ==> (after.pending is Some
                <==> state.regions.last().object is Some)
            &&& state.stage is Ledger && state.regions.len() == 0 ==> after.stage is Backings
                && after.pending is None
            &&& state.stage is Backings && state.backings.len() > 0 ==> after.pending == Some(
                RetiredSpaceResource::Backing(state.backings.last().extents.last()),
            ) && extent_count(after.backings) == extent_count(state.backings) - 1 && after.tables
                == state.tables && after.stage is Backings
            &&& state.stage is Backings && state.backings.len() == 0 ==> after.stage is Tables
            &&& state.stage is Tables && state.tables.len() > 0 ==> after.tables
                == state.tables.drop_last() && after.stage is Tables
            &&& state.stage is Tables && state.tables.len() == 0 ==> after.stage is Root
        }),
{
    if state.stage is Backings && state.backings.len() > 0 {
        let rest = state.backings.drop_last();
        let last = state.backings.last();
        let runs = last.extents.drop_last();
        if runs.len() > 0 {
            let kept = BackingState { extents: runs, ..last };
            assert(rest.push(kept).drop_last() =~= rest);
        }
    }
}

/// The hold on an object ends with the last region that is a view of it: as long as another is left
/// the object is held, and then no more. Every view goes out with the permit of its region.
pub proof fn holds_end_when_nothing_views_the_object(state: DrainView, object: u64)
    requires
        state.wf(),
        state.stage is Ledger,
        state.pending is None,
        state.regions.len() > 0,
        state.regions.last().object == Some(object),
    ensures
        ({
            let after = state.looked().0;
            let others = exists|i: int|
                0 <= i < state.regions.len() - 1 && (#[trigger] state.regions[i]).object == Some(
                    object,
                );
            &&& after.pending matches Some(RetiredSpaceResource::View { object: shown, permit, last })
                && shown == object && permit == state.regions.last().permit && (last <==> !others)
            &&& others ==> after.views == state.views
            &&& !others ==> after.views.len() == state.views.len() - 1 && !after.views.contains(
                object,
            )
        }),
{
    let rest = state.regions.drop_last();
    assert(viewed(rest, object) <==> exists|i: int|
        0 <= i < state.regions.len() - 1 && (#[trigger] state.regions[i]).object == Some(
            object,
        )) by {
        if viewed(rest, object) {
            let i = choose|i: int| 0 <= i < rest.len() && (#[trigger] rest[i]).object == Some(object);
            assert(state.regions[i].object == Some(object));
        }
        if exists|i: int|
            0 <= i < state.regions.len() - 1 && (#[trigger] state.regions[i]).object == Some(
                object,
            ) {
            let i = choose|i: int|
                0 <= i < state.regions.len() - 1 && (#[trigger] state.regions[i]).object == Some(
                    object,
                );
            assert(rest[i].object == Some(object));
        }
    }
    assert(state.regions[state.regions.len() - 1].object is Some);
    assert(state.views.contains(object));
    let at = state.views.index_of(object);
    assert(0 <= at < state.views.len() && state.views[at] == object);
    let left = state.views.remove(at);
    if left.contains(object) {
        let k = choose|k: int| 0 <= k < left.len() && left[k] == object;
        if k < at {
            assert(state.views[k] < state.views[at]);
        } else {
            assert(state.views[k + 1] == object);
            assert(state.views[at] < state.views[k + 1]);
        }
    }
}

} // verus!
