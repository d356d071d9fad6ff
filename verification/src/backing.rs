//! The pages behind anonymous memory: runs of physical frames that a mapping owns, and
//! how they are put together, installed and given back piece by piece.
use vstd::prelude::*;

use crate::process::PAGE_SIZE;
use crate::region::PageRange;
use crate::space::SpaceError;

verus! {

/// How an owner holds a run of frames.
#[derive(Clone, Copy, Debug, PartialEq, Eq, Structural)]
pub enum Holding {
    /// Charged to a pool.
    Funded,
    /// Handed over at boot.
    Boot,
    /// Lent by a boot-time owner until that owner itself is installed.
    BootBorrowed,
}

/// A run of frames of a backing.
#[derive(Clone, Copy, Debug, PartialEq, Eq, Structural)]
pub struct BackingExtent {
    /// The page of the backing at which the run starts.
    pub offset_pages: usize,
    /// The first frame.
    pub base: usize,
    pub pages: usize,
    pub holding: Holding,
}

impl BackingExtent {
    /// A nonempty run whose pages and addresses can be told.
    pub open spec fn wf(self) -> bool {
        &&& self.pages > 0
        &&& (self.offset_pages + self.pages) * PAGE_SIZE <= usize::MAX
        &&& (self.base + self.pages) * PAGE_SIZE <= usize::MAX
    }

    /// The page of the backing behind the run.
    pub open spec fn end(self) -> int {
        self.offset_pages + self.pages
    }

    /// The run holds page `p`.
    pub open spec fn has(self, p: int) -> bool {
        self.offset_pages <= p < self.end()
    }

    /// The frame of page `p`.
    pub open spec fn frame(self, p: int) -> int {
        self.base + (p - self.offset_pages)
    }

    /// Cuts the run in two after `pages` pages.
    pub fn split_at(self, pages: usize) -> (r: (BackingExtent, BackingExtent))
        requires
            self.wf(),
            0 < pages < self.pages,
            self.holding != Holding::BootBorrowed,
        ensures
            r.0.wf(),
            r.1.wf(),
            r.0 == (BackingExtent { pages, ..self }),
            r.1 == (BackingExtent {
                offset_pages: (self.offset_pages + pages) as usize,
                base: (self.base + pages) as usize,
                pages: (self.pages - pages) as usize,
                holding: self.holding,
            }),
    {
        (
            BackingExtent { pages, ..self },
            BackingExtent {
                offset_pages: self.offset_pages + pages,
                base: self.base + pages,
                pages: self.pages - pages,
                holding: self.holding,
            },
        )
    }
}

/// Run `i` holds page `p` of the backing.
pub open spec fn held_by(extents: Seq<BackingExtent>, i: int, p: int) -> bool {
    0 <= i < extents.len() && extents[i].has(p)
}

/// Page `p` of the backing is in frame `f`.
pub open spec fn in_frame(extents: Seq<BackingExtent>, p: int, f: int) -> bool {
    exists|i: int| #[trigger] held_by(extents, i, p) && f == extents[i].frame(p)
}

/// Page `p` of the backing is owned.
pub open spec fn owned(extents: Seq<BackingExtent>, p: int) -> bool {
    exists|i: int| #[trigger] held_by(extents, i, p)
}

/// Runs by ascending page, none overlapping.
pub open spec fn ordered(extents: Seq<BackingExtent>) -> bool {
    &&& forall|i: int| 0 <= i < extents.len() ==> (#[trigger] extents[i]).wf()
    &&& forall|i: int, j: int|
        0 <= i < j < extents.len() ==> (#[trigger] extents[i]).end() <= (
        #[trigger] extents[j]).offset_pages
}

/// The runs follow each other without a gap, from page 0 up to page `pages`.
pub open spec fn gapless(extents: Seq<BackingExtent>, pages: int) -> bool {
    &&& forall|i: int|
        0 <= i < extents.len() ==> (#[trigger] extents[i]).offset_pages == start_of(extents, i)
    &&& start_of(extents, extents.len() as int) == pages
}

/// Where run `i` starts if there is no gap before it.
pub open spec fn start_of(extents: Seq<BackingExtent>, i: int) -> int {
    if i <= 0 {
        0
    } else {
        extents[i - 1].end()
    }
}

/// The pages behind a mapping.
pub struct OwnedBacking {
    identity: u64,
    pages: usize,
    extents: Vec<BackingExtent>,
}

/// The pages behind a mapping, as a value.
#[verifier::ext_equal]
pub struct BackingState {
    pub identity: u64,
    /// How long the backing is, owned pages or not.
    pub pages: usize,
    pub extents: Seq<BackingExtent>,
}

impl View for OwnedBacking {
    type V = BackingState;

    closed spec fn view(&self) -> BackingState {
        BackingState { identity: self.identity, pages: self.pages, extents: self.extents@ }
    }
}

impl BackingState {
    /// What every operation keeps.
    pub open spec fn wf(self) -> bool {
        &&& ordered(self.extents)
        &&& forall|i: int|
            0 <= i < self.extents.len() ==> (#[trigger] self.extents[i]).end() <= self.pages
        &&& self.pages * PAGE_SIZE <= usize::MAX
    }

    /// The backing without pages `start` up to `end`, which one run holds.
    pub open spec fn without(self, start: int, end: int) -> BackingState {
        BackingState {
            extents: cut_from(self.extents, holder(self.extents, start), start, end),
            ..self
        }
    }

    /// Every page is owned.
    pub open spec fn complete(self) -> bool {
        self.wf() && gapless(self.extents, self.pages as int)
    }
}

/// Where page `p` stands in a backing without gaps.
proof fn gapless_owns(extents: Seq<BackingExtent>, n: int, p: int)
    requires
        0 <= n <= extents.len(),
        forall|i: int|
            0 <= i < n ==> (#[trigger] extents[i]).offset_pages == start_of(extents, i),
        0 <= p < start_of(extents, n),
    ensures
        owned(extents, p),
    decreases n,
{
    if extents[n - 1].has(p) {
        assert(held_by(extents, n - 1, p));
    } else {
        gapless_owns(extents, n - 1, p);
    }
}

/// A backing that is complete owns each of its pages.
pub proof fn complete_owns_every_page(state: BackingState, p: int)
    requires
        state.complete(),
        0 <= p < state.pages,
    ensures
        owned(state.extents, p),
{
    gapless_owns(state.extents, state.extents.len() as int, p);
}

/// A page is in one frame only.
pub proof fn frames_are_unique(extents: Seq<BackingExtent>, p: int, f: int, g: int)
    requires
        ordered(extents),
        in_frame(extents, p, f),
        in_frame(extents, p, g),
    ensures
        f == g,
{
    let i = choose|i: int| held_by(extents, i, p) && f == extents[i].frame(p);
    let j = choose|j: int| held_by(extents, j, p) && g == extents[j].frame(p);
    assert(held_by(extents, i, p) && held_by(extents, j, p));
    if i < j {
        assert(extents[i].end() <= extents[j].offset_pages);
    } else if j < i {
        assert(extents[j].end() <= extents[i].offset_pages);
    }
}

/// How many pages the runs have that were handed out.
pub open spec fn total_pages(funded: Seq<(usize, usize)>) -> int
    decreases funded.len(),
{
    if funded.len() == 0 {
        0
    } else {
        total_pages(funded.drop_last()) + funded.last().1
    }
}

/// The funded runs as parts of a backing, one after the other.
pub open spec fn laid_out(funded: Seq<(usize, usize)>) -> Seq<BackingExtent> {
    Seq::new(
        funded.len(),
        |i: int|
            BackingExtent {
                offset_pages: total_pages(funded.take(i)) as usize,
                base: funded[i].0,
                pages: funded[i].1,
                holding: Holding::Funded,
            },
    )
}

/// Puts a backing together from runs of frames, given by first frame and length, that
/// were funded for it. `permits` is how many slots for runs could be had, `room` whether
/// there is memory to list them.
pub fn assemble_prepared_backing(
    identity: u64,
    pages: usize,
    funded: &Vec<(usize, usize)>,
    permits: usize,
    room: bool,
) -> (r: Result<OwnedBacking, SpaceError>)
    requires
        pages * PAGE_SIZE <= usize::MAX,
        total_pages(funded@) == pages,
        forall|i: int|
            0 <= i < funded@.len() ==> (#[trigger] funded@[i]).1 > 0 && (funded@[i].0
                + funded@[i].1) * PAGE_SIZE <= usize::MAX,
    ensures
        r is Err <==> !room || permits < funded@.len(),
        r matches Err(error) ==> error == if !room {
            SpaceError::NoFrame
        } else {
            SpaceError::ReachLimit
        },
        r matches Ok(backing) ==> backing.wf() && backing@.complete() && backing@ == (BackingState {
            identity,
            pages,
            extents: laid_out(funded@),
        }),
{
    if !room {
        return Err(SpaceError::NoFrame);
    }
    if permits < funded.len() {
        return Err(SpaceError::ReachLimit);
    }
    let mut extents: Vec<BackingExtent> = Vec::new();
    let mut offset: usize = 0;
    let mut index: usize = 0;
    proof {
        assert(funded@.take(0) =~= Seq::empty());
    }
    while index < funded.len()
        invariant
            index <= funded@.len(),
            offset == total_pages(funded@.take(index as int)),
            offset <= pages,
            pages * PAGE_SIZE <= usize::MAX,
            total_pages(funded@) == pages,
            forall|i: int|
                0 <= i < funded@.len() ==> (#[trigger] funded@[i]).1 > 0 && (funded@[i].0
                    + funded@[i].1) * PAGE_SIZE <= usize::MAX,
            extents@ =~= laid_out(funded@).take(index as int),
            ordered(extents@),
            forall|i: int| 0 <= i < extents@.len() ==> (#[trigger] extents@[i]).end() <= offset,
            forall|i: int|
                0 <= i < extents@.len() ==> (#[trigger] extents@[i]).offset_pages == start_of(
                    extents@,
                    i,
                ),
            start_of(extents@, extents@.len() as int) == offset,
        decreases funded@.len() - index,
    {
        let (base, count) = funded[index];
        let ghost before = extents@;
        proof {
            total_grows(funded@, index as int);
            assert(funded@[index as int].1 > 0);
        }
        extents.push(
            BackingExtent { offset_pages: offset, base, pages: count, holding: Holding::Funded },
        );
        proof {
            assert((offset + count) * PAGE_SIZE <= usize::MAX) by (nonlinear_arith)
                requires
                    offset + count <= pages,
                    pages * PAGE_SIZE <= usize::MAX,
                    PAGE_SIZE == 4096,
            ;
            assert(extents@[index as int].wf());
            assert forall|i: int| 0 <= i < extents@.len() implies (
            #[trigger] extents@[i]).offset_pages == start_of(extents@, i) by {
                if i < before.len() {
                    assert(before[i].offset_pages == start_of(before, i));
                    if i > 0 {
                        assert(extents@[i - 1] == before[i - 1]);
                    }
                }
            }
        }
        offset = offset + count;
        index = index + 1;
    }
    proof {
        assert(funded@.take(index as int) =~= funded@);
        assert(extents@ =~= laid_out(funded@));
    }
    Ok(OwnedBacking { identity, pages, extents })
}

/// The runs are what a backing of this many pages takes.
pub open spec fn runs_fit(runs: Seq<(usize, usize)>, pages: int) -> bool {
    &&& total_pages(runs) == pages
    &&& forall|i: int|
        0 <= i < runs.len() ==> (#[trigger] runs[i]).1 > 0 && (runs[i].0 + runs[i].1) * PAGE_SIZE
            <= usize::MAX
}

/// Why a backing is not had.
pub open spec fn allocate_refusal(
    pages: int,
    runs: Result<Vec<(usize, usize)>, SpaceError>,
    slots: usize,
    room: bool,
) -> Option<SpaceError> {
    if pages == 0 {
        Some(SpaceError::BadSegment)
    } else if runs is Err {
        Some(runs->Err_0)
    } else if !room {
        Some(SpaceError::NoFrame)
    } else if slots < runs->Ok_0@.len() {
        Some(SpaceError::ReachLimit)
    } else {
        None
    }
}

/// A backing of `pages` pages that has no identity yet: `runs` is what funding its frames
/// gave, `slots` how many slots for runs could be had, `room` whether there is memory to list
/// them.
pub fn allocate(
    pages: usize,
    runs: &Result<Vec<(usize, usize)>, SpaceError>,
    slots: usize,
    room: bool,
) -> (r: Result<OwnedBacking, SpaceError>)
    requires
        pages * PAGE_SIZE <= usize::MAX,
        runs matches Ok(list) ==> runs_fit(list@, pages as int),
    ensures
        match r {
            Err(error) => allocate_refusal(pages as int, *runs, slots, room) == Some(error),
            Ok(backing) => {
                &&& allocate_refusal(pages as int, *runs, slots, room) is None
                &&& backing.wf() && backing@.complete()
                &&& backing@ == (BackingState {
                    identity: 0,
                    pages,
                    extents: laid_out(runs->Ok_0@),
                })
                &&& backing@.extents.len() > 0
            },
        },
{
    if pages == 0 {
        return Err(SpaceError::BadSegment);
    }
    match runs {
        Err(error) => Err(*error),
        Ok(list) => {
            assert(list@.len() > 0);
            assemble_prepared_backing(0, pages, list, slots, room)
        },
    }
}

/// The runs before position `i + 1` have the pages of those before `i` and those of run
/// `i`, and all together no fewer.
proof fn total_grows(funded: Seq<(usize, usize)>, i: int)
    requires
        0 <= i < funded.len(),
    ensures
        total_pages(funded.take(i + 1)) == total_pages(funded.take(i)) + funded[i].1,
        total_pages(funded.take(i + 1)) <= total_pages(funded),
    decreases funded.len() - i,
{
    assert(funded.take(i + 1).drop_last() =~= funded.take(i));
    if i + 1 < funded.len() {
        total_grows(funded, i + 1);
    } else {
        assert(funded.take(i + 1) =~= funded);
    }
}

/// How many cuts taking pages `start` up to `end` out of run `e` takes.
pub open spec fn cuts(e: BackingExtent, start: int, end: int) -> nat {
    let left: nat = if e.offset_pages < start {
        1
    } else {
        0
    };
    let right: nat = if end < e.end() {
        1
    } else {
        0
    };
    left + right
}

/// The runs without pages `start` up to `end`, which run `at` holds: what that run has
/// before and behind them stays as runs of its own.
pub open spec fn cut_from(
    extents: Seq<BackingExtent>,
    at: int,
    start: int,
    end: int,
) -> Seq<BackingExtent> {
    let e = extents[at];
    let left = BackingExtent { pages: (start - e.offset_pages) as usize, ..e };
    let right = BackingExtent {
        offset_pages: end as usize,
        base: e.frame(end) as usize,
        pages: (e.end() - end) as usize,
        holding: e.holding,
    };
    let behind = if end < e.end() {
        seq![right]
    } else {
        seq![]
    };
    let parts = if e.offset_pages < start {
        seq![left] + behind
    } else {
        behind
    };
    extents.take(at) + parts + extents.skip(at + 1)
}

/// The run that holds page `p` stands where `i` says.
pub open spec fn holder(extents: Seq<BackingExtent>, p: int) -> int {
    choose|i: int| #[trigger] held_by(extents, i, p)
}

/// The lesser of two numbers.
pub open spec fn least(a: int, b: int) -> int {
    if a < b {
        a
    } else {
        b
    }
}

impl OwnedBacking {
    pub closed spec fn wf(&self) -> bool {
        self@.wf()
    }

    pub proof fn wf_view(&self)
        requires
            self.wf(),
        ensures
            self@.wf(),
    {
    }

    pub fn identity(&self) -> (r: u64)
        ensures
            r == self@.identity,
    {
        self.identity
    }

    /// Gives the backing the identity under which it is listed.
    pub fn bind(self, identity: u64) -> (r: OwnedBacking)
        requires
            self.wf(),
        ensures
            r.wf(),
            r@ == (BackingState { identity, ..self@ }),
    {
        OwnedBacking { identity, pages: self.pages, extents: self.extents }
    }

    /// Whether no page is owned any more.
    pub fn is_empty(&self) -> (r: bool)
        ensures
            r == (self@.extents.len() == 0),
    {
        self.extents.len() == 0
    }

    /// Takes the last run out.
    pub fn pop_extent(&mut self) -> (r: BackingExtent)
        requires
            old(self).wf(),
            old(self)@.extents.len() > 0,
        ensures
            final(self).wf(),
            r == old(self)@.extents.last(),
            final(self)@ == (BackingState {
                extents: old(self)@.extents.drop_last(),
                ..old(self)@
            }),
    {
        let extent = self.extents.pop().unwrap();
        assert(self@.extents =~= old(self)@.extents.drop_last());
        extent
    }

    /// Where the first run stands that has a page among `start` up to `end`.
    fn first_overlap(&self, start: usize, end: usize) -> (r: usize)
        requires
            self.wf(),
            start < end,
            owned(self@.extents, start as int),
        ensures
            held_by(self@.extents, r as int, start as int),
    {
        let ghost at = holder(self@.extents, start as int);
        assert(held_by(self@.extents, at, start as int));
        let mut index: usize = 0;
        while index < self.extents.len()
            invariant
                self.wf(),
                start < end,
                held_by(self@.extents, at, start as int),
                index <= at,
            decreases self.extents.len() - index,
        {
            let extent = self.extents[index];
            assert(extent.wf());
            if extent.offset_pages < end && start < extent.offset_pages + extent.pages {
                proof {
                    if index < at {
                        assert(self@.extents[index as int].end()
                            <= self@.extents[at].offset_pages);
                    }
                }
                return index;
            }
            index = index + 1;
        }
        index
    }

    /// Gives back one run: what is owned from byte `offset` on, within `bytes` bytes, as
    /// far as one run of frames reaches. The rest of a run that is cut stays, and every
    /// cut takes one of the `permits`.
    pub fn release_one(&mut self, offset: usize, bytes: usize, permits: &mut usize) -> (r: (
        BackingExtent,
        usize,
    ))
        requires
            old(self).wf(),
            offset % PAGE_SIZE == 0,
            bytes % PAGE_SIZE == 0,
            bytes > 0,
            offset / PAGE_SIZE + bytes / PAGE_SIZE <= old(self)@.pages,
            owned(old(self)@.extents, (offset / PAGE_SIZE) as int),
            ({
                let start = (offset / PAGE_SIZE) as int;
                let e = old(self)@.extents[holder(old(self)@.extents, start)];
                let end = least(e.end(), start + bytes / PAGE_SIZE);
                &&& *old(permits) >= cuts(e, start, end)
                &&& cuts(e, start, end) > 0 ==> e.holding != Holding::BootBorrowed
            }),
        ensures
            final(self).wf(),
            ({
                let start = (offset / PAGE_SIZE) as int;
                let e = old(self)@.extents[holder(old(self)@.extents, start)];
                let end = least(e.end(), start + bytes / PAGE_SIZE);
                &&& final(self)@ == old(self)@.without(start, end)
                &&& r.1 == end - start
                &&& r.0 == (BackingExtent {
                    offset_pages: start as usize,
                    base: e.frame(start) as usize,
                    pages: r.1,
                    holding: e.holding,
                })
                &&& *final(permits) == *old(permits) - cuts(e, start, end)
            }),
    {
        let release_start: usize = offset / PAGE_SIZE;
        let release_end: usize = release_start + bytes / PAGE_SIZE;
        let ghost before = self@.extents;
        let ghost at = holder(before, release_start as int);
        let index = self.first_overlap(release_start, release_end);
        proof {
            assert(held_by(before, at, release_start as int));
            if at < index {
                assert(before[at].end() <= before[index as int].offset_pages);
            } else if index < at {
                assert(before[index as int].end() <= before[at].offset_pages);
            }
            assert(at == index);
        }
        let extent = self.extents[index];
        assert(extent.wf());
        let extent_end: usize = extent.offset_pages + extent.pages;
        let cut_end: usize = if extent_end < release_end {
            extent_end
        } else {
            release_end
        };
        let retired = self.cut_run(index, release_start, cut_end, permits);
        proof {
            let n = cuts(extent, release_start as int, cut_end as int) as int;
            let start = release_start as int;
            let end = cut_end as int;
            cut_from_cuts_out(before, index as int, start, end);
            cut_out_is_ordered(before, self.extents@, index as int, n, start, end);
        }
        (retired, cut_end - release_start)
    }

    /// Cuts pages `start` up to `end` out of run `index`.
    fn cut_run(&mut self, index: usize, start: usize, end: usize, permits: &mut usize) -> (r:
        BackingExtent)
        requires
            index < old(self)@.extents.len(),
            old(self)@.extents[index as int].wf(),
            old(self)@.extents[index as int].offset_pages <= start < end,
            end <= old(self)@.extents[index as int].end(),
            *old(permits) >= cuts(old(self)@.extents[index as int], start as int, end as int),
            cuts(old(self)@.extents[index as int], start as int, end as int) > 0 ==> old(
                self,
            )@.extents[index as int].holding != Holding::BootBorrowed,
        ensures
            final(self)@.identity == old(self)@.identity,
            final(self)@.pages == old(self)@.pages,
            ({
                let e = old(self)@.extents[index as int];
                let n = cuts(e, start as int, end as int);
                &&& r == (BackingExtent {
                    offset_pages: start,
                    base: e.frame(start as int) as usize,
                    pages: (end - start) as usize,
                    holding: e.holding,
                })
                &&& *final(permits) == *old(permits) - n
                &&& final(self)@.extents == cut_from(
                    old(self)@.extents,
                    index as int,
                    start as int,
                    end as int,
                )
            }),
    {
        let ghost before = self.extents@;
        let extent = self.extents.remove(index);
        let left_pages: usize = start - extent.offset_pages;
        let right_pages: usize = extent.offset_pages + extent.pages - end;
        let mut retired = extent;
        if right_pages != 0 {
            *permits = *permits - 1;
            let (kept, right) = retired.split_at(end - extent.offset_pages);
            self.extents.insert(index, right);
            retired = kept;
        }
        if left_pages != 0 {
            *permits = *permits - 1;
            let (left, tail) = retired.split_at(left_pages);
            self.extents.insert(index, left);
            retired = tail;
        }
        assert(self.extents@ =~= cut_from(before, index as int, start as int, end as int));
        retired
    }
}

/// The run of `before` that run `i` was or was part of, where run `at` has become `n`
/// runs.
spec fn origin(at: int, n: int, i: int) -> int {
    if i < at {
        i
    } else if i < at + n {
        at
    } else {
        i - n + 1
    }
}

/// Run `i` of `after` is a run of `before`, or what is left of run `at` without the pages
/// from `start` up to `end`.
spec fn left_over(
    before: Seq<BackingExtent>,
    after: Seq<BackingExtent>,
    at: int,
    n: int,
    start: int,
    end: int,
    i: int,
) -> bool {
    let e = before[origin(at, n, i)];
    if at <= i < at + n {
        &&& after[i].wf()
        &&& e.offset_pages <= after[i].offset_pages
        &&& after[i].end() <= e.end()
        &&& after[i].end() <= start || end <= after[i].offset_pages
        &&& after[i].base - after[i].offset_pages == e.base - e.offset_pages
        &&& i > at ==> end <= after[i].offset_pages
        &&& i + 1 < at + n ==> after[i].end() <= start
    } else {
        after[i] == e
    }
}

/// The runs after pages `start` up to `end` are cut out of run `at`.
spec fn cut_out(
    before: Seq<BackingExtent>,
    after: Seq<BackingExtent>,
    at: int,
    n: int,
    start: int,
    end: int,
) -> bool {
    let e = before[at];
    &&& 0 <= n <= 2
    &&& after.len() == before.len() - 1 + n
    &&& forall|i: int|
        0 <= i < after.len() ==> #[trigger] left_over(before, after, at, n, start, end, i)
    &&& e.offset_pages < start ==> n >= 1 && after[at].offset_pages == e.offset_pages
        && after[at].end() == start
    &&& end < e.end() ==> n >= 1 && after[at + n - 1].offset_pages == end && after[at + n
        - 1].end() == e.end()
}

/// Each run that is left stood before, or is a part of the run that was cut.
proof fn cut_from_cuts_out(before: Seq<BackingExtent>, at: int, start: int, end: int)
    requires
        ordered(before),
        0 <= at < before.len(),
        before[at].offset_pages <= start < end <= before[at].end(),
    ensures
        cut_out(
            before,
            cut_from(before, at, start, end),
            at,
            cuts(before[at], start, end) as int,
            start,
            end,
        ),
{
    let after = cut_from(before, at, start, end);
    let n = cuts(before[at], start, end) as int;
    assert(before[at].wf());
    assert(after.len() == before.len() - 1 + n);
    assert forall|i: int| 0 <= i < after.len() implies #[trigger] left_over(
        before,
        after,
        at,
        n,
        start,
        end,
        i,
    ) by {
        if i < at {
            assert(after[i] == before[i]);
        } else if i >= at + n {
            assert(after[i] == before[i - n + 1]);
        }
    }
}

/// What cutting out leaves is in order, and reaches no further.
proof fn cut_out_is_ordered(
    before: Seq<BackingExtent>,
    after: Seq<BackingExtent>,
    at: int,
    n: int,
    start: int,
    end: int,
)
    requires
        ordered(before),
        0 <= at < before.len(),
        before[at].offset_pages <= start < end <= before[at].end(),
        cut_out(before, after, at, n, start, end),
    ensures
        ordered(after),
        forall|i: int|
            0 <= i < after.len() ==> (#[trigger] after[i]).end() <= before[origin(
                at,
                n,
                i,
            )].end() && 0 <= origin(at, n, i) < before.len(),
{
    assert forall|i: int| 0 <= i < after.len() implies (#[trigger] after[i]).wf()
        && after[i].end() <= before[origin(at, n, i)].end() && 0 <= origin(at, n, i)
        < before.len() by {
        assert(left_over(before, after, at, n, start, end, i));
        assert(before[origin(at, n, i)].wf());
    }
    assert forall|i: int, j: int| 0 <= i < j < after.len() implies (#[trigger] after[i]).end() <= (
    #[trigger] after[j]).offset_pages by {
        assert(left_over(before, after, at, n, start, end, i));
        assert(left_over(before, after, at, n, start, end, j));
        let from_i = origin(at, n, i);
        let from_j = origin(at, n, j);
        if from_i < from_j {
            assert(before[from_i].end() <= before[from_j].offset_pages);
        }
    }
}

/// Cutting out moves no other page.
proof fn cut_out_moves_nothing(
    before: Seq<BackingExtent>,
    after: Seq<BackingExtent>,
    at: int,
    n: int,
    start: int,
    end: int,
    p: int,
    f: int,
)
    requires
        ordered(before),
        0 <= at < before.len(),
        before[at].offset_pages <= start < end <= before[at].end(),
        cut_out(before, after, at, n, start, end),
    ensures
        in_frame(after, p, f) <==> in_frame(before, p, f) && !(start <= p < end),
{
    if in_frame(after, p, f) {
        let i = choose|i: int| held_by(after, i, p) && f == after[i].frame(p);
        assert(held_by(after, i, p));
        assert(left_over(before, after, at, n, start, end, i));
        let from = origin(at, n, i);
        assert(held_by(before, from, p));
        assert(f == before[from].frame(p));
        if from < at {
            assert(before[from].end() <= before[at].offset_pages);
        } else if from > at {
            assert(before[at].end() <= before[from].offset_pages);
        }
    }
    if in_frame(before, p, f) && !(start <= p < end) {
        let k = choose|k: int| held_by(before, k, p) && f == before[k].frame(p);
        assert(held_by(before, k, p));
        let to = if k < at {
            k
        } else if k == at {
            if p < start {
                at
            } else {
                at + n - 1
            }
        } else {
            k + n - 1
        };
        assert(left_over(before, after, at, n, start, end, to));
        assert(held_by(after, to, p));
        assert(f == after[to].frame(p));
    }
}

/// Giving pages back moves no other page: what is left is in the frames it was in.
pub proof fn release_moves_nothing(state: BackingState, start: int, end: int, p: int, f: int)
    requires
        state.wf(),
        owned(state.extents, start),
        start < end <= state.extents[holder(state.extents, start)].end(),
    ensures
        in_frame(state.without(start, end).extents, p, f) <==> in_frame(state.extents, p, f) && !(
        start <= p < end),
{
    let at = holder(state.extents, start);
    assert(held_by(state.extents, at, start));
    let n = cuts(state.extents[at], start, end) as int;
    cut_from_cuts_out(state.extents, at, start, end);
    cut_out_moves_nothing(
        state.extents,
        cut_from(state.extents, at, start, end),
        at,
        n,
        start,
        end,
        p,
        f,
    );
}

/// A piece of the initial contents and the physical address it goes to.
#[derive(Clone, Copy, Debug, PartialEq, Eq, Structural)]
pub struct CopyChunk {
    /// Where the piece starts in the source.
    pub source: usize,
    pub physical: usize,
    pub bytes: usize,
}

/// What run `e` gets of a source of `len` bytes.
pub open spec fn chunk_of(e: BackingExtent, len: int) -> CopyChunk {
    CopyChunk {
        source: (e.offset_pages * PAGE_SIZE) as usize,
        physical: (e.base * PAGE_SIZE) as usize,
        bytes: least(e.pages * PAGE_SIZE, len - e.offset_pages * PAGE_SIZE) as usize,
    }
}

/// The chunks are those of the runs that start within the source, in order.
pub open spec fn fills(extents: Seq<BackingExtent>, len: int, chunks: Seq<CopyChunk>) -> bool {
    &&& chunks.len() <= extents.len()
    &&& forall|k: int|
        0 <= k < chunks.len() ==> (#[trigger] chunks[k]) == chunk_of(extents[k], len)
            && extents[k].offset_pages * PAGE_SIZE < len
    &&& forall|k: int|
        chunks.len() <= k < extents.len() ==> (#[trigger] extents[k]).offset_pages * PAGE_SIZE
            >= len
}

impl OwnedBacking {
    /// Where `len` bytes of initial contents go, before anyone can see the backing.
    pub fn write_from_start(&self, len: usize) -> (r: Vec<CopyChunk>)
        requires
            self@.complete(),
            len <= self@.pages * PAGE_SIZE,
        ensures
            fills(self@.extents, len as int, r@),
    {
        let mut chunks: Vec<CopyChunk> = Vec::new();
        let mut index: usize = 0;
        while index < self.extents.len()
            invariant
                self@.complete(),
                index <= self.extents@.len(),
                chunks@.len() == index,
                forall|k: int|
                    0 <= k < index ==> (#[trigger] chunks@[k]) == chunk_of(
                        self@.extents[k],
                        len as int,
                    ) && self@.extents[k].offset_pages * PAGE_SIZE < len,
            decreases self.extents@.len() - index,
        {
            let extent = self.extents[index];
            assert(extent.wf());
            let start: usize = extent.offset_pages * PAGE_SIZE;
            if start >= len {
                proof {
                    let extents = self@.extents;
                    let total = len as int;
                    assert forall|k: int| chunks@.len() <= k < extents.len() implies (
                    #[trigger] extents[k]).offset_pages * PAGE_SIZE >= total by {
                        if k > index {
                            assert(extents[index as int].end() <= extents[k].offset_pages);
                        }
                    }
                    assert forall|k: int| 0 <= k < chunks@.len() implies (#[trigger] chunks@[k])
                        == chunk_of(extents[k], total) && extents[k].offset_pages * PAGE_SIZE
                        < total by {}
                }
                return chunks;
            }
            let whole: usize = extent.pages * PAGE_SIZE;
            let rest: usize = len - start;
            let bytes: usize = if whole < rest {
                whole
            } else {
                rest
            };
            chunks.push(CopyChunk { source: start, physical: extent.base * PAGE_SIZE, bytes });
            index = index + 1;
        }
        chunks
    }
}

/// Every byte of the initial contents goes to its page: byte `i` ends up at the same
/// place within the frame of page `i / PAGE_SIZE`.
pub proof fn contents_reach_their_pages(
    state: BackingState,
    len: int,
    chunks: Seq<CopyChunk>,
    i: int,
)
    requires
        state.complete(),
        len <= state.pages * PAGE_SIZE,
        fills(state.extents, len, chunks),
        0 <= i < len,
    ensures
        exists|k: int, f: int|
            0 <= k < chunks.len() && (#[trigger] chunks[k]).source <= i < chunks[k].source
                + chunks[k].bytes && #[trigger] in_frame(state.extents, i / PAGE_SIZE as int, f)
                && chunks[k].physical + (i - chunks[k].source) == f * PAGE_SIZE + i
                % PAGE_SIZE as int,
{
    let p = i / PAGE_SIZE as int;
    complete_owns_every_page(state, p);
    let k = holder(state.extents, p);
    assert(held_by(state.extents, k, p));
    let e = state.extents[k];
    assert(e.wf());
    if k >= chunks.len() {
        assert(state.extents[k].offset_pages * PAGE_SIZE >= len);
    }
    assert(chunks[k] == chunk_of(e, len));
    let f = e.frame(p);
    assert(in_frame(state.extents, p, f));
}

/// A run of pages to enter in the page table.
#[derive(Clone, Copy, Debug, PartialEq, Eq, Structural)]
pub struct InstallSpan {
    /// Number of the first virtual page.
    pub vpn: usize,
    pub pages: usize,
    /// Number of the first frame.
    pub ppn: usize,
}

/// Runs of frames, given by first frame and length, entered one behind the other from
/// virtual page `vpn` on.
pub open spec fn placed_spans(vpn: int, spans: Seq<(usize, usize)>) -> Seq<InstallSpan> {
    Seq::new(
        spans.len(),
        |i: int|
            InstallSpan {
                vpn: (vpn + total_pages(spans.take(i))) as usize,
                pages: spans[i].1,
                ppn: spans[i].0,
            },
    )
}

/// How many pages the runs have; `None` if no number can tell.
pub fn span_pages(spans: &Vec<(usize, usize)>) -> (r: Option<usize>)
    ensures
        match r {
            Some(pages) => pages == total_pages(spans@),
            None => total_pages(spans@) > usize::MAX,
        },
{
    let mut pages: usize = 0;
    let mut index: usize = 0;
    while index < spans.len()
        invariant
            index <= spans@.len(),
            pages == total_pages(spans@.take(index as int)),
        decreases spans@.len() - index,
    {
        proof {
            total_grows(spans@, index as int);
        }
        match pages.checked_add(spans[index].1) {
            None => {
                return None;
            },
            Some(sum) => {
                pages = sum;
            },
        }
        index = index + 1;
    }
    assert(spans@.take(index as int) =~= spans@);
    Some(pages)
}

/// Enters the runs of an object one behind the other from virtual page `vpn` on, if there
/// are page numbers for all of them.
pub fn object_spans(vpn: usize, spans: &Vec<(usize, usize)>) -> (r: Result<
    Vec<InstallSpan>,
    SpaceError,
>)
    ensures
        match r {
            Ok(placed) => vpn + total_pages(spans@) <= usize::MAX && placed@ == placed_spans(
                vpn as int,
                spans@,
            ),
            Err(error) => vpn + total_pages(spans@) > usize::MAX && error
                == SpaceError::BadSegment,
        },
{
    let mut placed: Vec<InstallSpan> = Vec::new();
    let mut cursor: usize = vpn;
    let mut index: usize = 0;
    while index < spans.len()
        invariant
            index <= spans@.len(),
            placed@.len() == index,
            cursor == vpn + total_pages(spans@.take(index as int)),
            forall|i: int|
                0 <= i < index ==> #[trigger] placed@[i] == placed_spans(vpn as int, spans@)[i],
        decreases spans@.len() - index,
    {
        proof {
            total_grows(spans@, index as int);
        }
        let (base, pages) = spans[index];
        placed.push(InstallSpan { vpn: cursor, pages, ppn: base });
        match cursor.checked_add(pages) {
            None => {
                return Err(SpaceError::BadSegment);
            },
            Some(next) => {
                cursor = next;
            },
        }
        index = index + 1;
    }
    assert(spans@.take(index as int) =~= spans@);
    assert(placed@ =~= placed_spans(vpn as int, spans@));
    Ok(placed)
}

/// The runs of an object cover the pages from `vpn` on without a gap: where one ends the
/// next begins, and the last ends where all of them together do.
pub proof fn object_spans_are_consecutive(vpn: int, spans: Seq<(usize, usize)>, i: int)
    requires
        0 <= vpn,
        vpn + total_pages(spans) <= usize::MAX,
        0 <= i < spans.len(),
    ensures
        ({
            let placed = placed_spans(vpn, spans);
            &&& placed[0].vpn == vpn
            &&& placed[i].vpn + placed[i].pages == if i + 1 < spans.len() {
                placed[i + 1].vpn as int
            } else {
                vpn + total_pages(spans)
            }
        }),
{
    total_grows(spans, i);
    total_is_natural(spans.take(i));
    if i + 1 < spans.len() {
        total_grows(spans, i + 1);
    } else {
        assert(spans.take(i + 1) =~= spans);
    }
    assert(spans.take(0).len() == 0);
}

/// There is no negative number of pages.
proof fn total_is_natural(spans: Seq<(usize, usize)>)
    ensures
        total_pages(spans) >= 0,
    decreases spans.len(),
{
    if spans.len() > 0 {
        total_is_natural(spans.drop_last());
    }
}

/// The greater of two numbers.
pub open spec fn greatest(a: int, b: int) -> int {
    if a < b {
        b
    } else {
        a
    }
}

/// What run `e` has of the pages from `first` up to `end`, entered from virtual page
/// `vpn` on.
pub open spec fn span_of(e: BackingExtent, first: int, end: int, vpn: int) -> InstallSpan {
    let start = greatest(e.offset_pages as int, first);
    let stop = least(e.end(), end);
    InstallSpan {
        vpn: (vpn + (start - first)) as usize,
        pages: (stop - start) as usize,
        ppn: (e.base + (start - e.offset_pages)) as usize,
    }
}

/// Run `e` has some of the pages from `first` up to `end`.
pub open spec fn overlaps(e: BackingExtent, first: int, end: int) -> bool {
    greatest(e.offset_pages as int, first) < least(e.end(), end)
}

/// What the runs have of the pages from `first` up to `end`, in order.
pub open spec fn spans_of(extents: Seq<BackingExtent>, first: int, end: int, vpn: int) -> Seq<
    InstallSpan,
>
    decreases extents.len(),
{
    if extents.len() == 0 {
        Seq::empty()
    } else {
        let before = spans_of(extents.drop_last(), first, end, vpn);
        if overlaps(extents.last(), first, end) {
            before.push(span_of(extents.last(), first, end, vpn))
        } else {
            before
        }
    }
}

/// How many of the pages from `first` up to `end` the runs have.
pub open spec fn covered(extents: Seq<BackingExtent>, first: int, end: int) -> int
    decreases extents.len(),
{
    if extents.len() == 0 {
        0
    } else {
        let e = extents.last();
        covered(extents.drop_last(), first, end) + if overlaps(e, first, end) {
            least(e.end(), end) - greatest(e.offset_pages as int, first)
        } else {
            0
        }
    }
}

/// Runs that end by page `reach` have at most the pages up to there.
proof fn covered_bound(extents: Seq<BackingExtent>, first: int, end: int)
    requires
        ordered(extents),
        first <= end,
    ensures
        0 <= covered(extents, first, end) <= end - first,
        extents.len() > 0 ==> covered(extents, first, end) <= greatest(
            least(extents.last().end(), end) - first,
            0,
        ),
    decreases extents.len(),
{
    if extents.len() > 0 {
        let rest = extents.drop_last();
        assert(ordered(rest)) by {
            assert forall|i: int, j: int| 0 <= i < j < rest.len() implies (
            #[trigger] rest[i]).end() <= (#[trigger] rest[j]).offset_pages by {
                assert(extents[i].end() <= extents[j].offset_pages);
            }
            assert forall|i: int| 0 <= i < rest.len() implies (#[trigger] rest[i]).wf() by {
                assert(extents[i].wf());
            }
        }
        covered_bound(rest, first, end);
        assert(extents.last().wf());
        if rest.len() > 0 {
            assert(extents[rest.len() - 1].end() <= extents[rest.len() as int].offset_pages);
        }
    }
}

/// Runs without a gap have every page up to where they end.
proof fn covered_by_gapless(extents: Seq<BackingExtent>, first: int, end: int)
    requires
        ordered(extents),
        forall|i: int|
            0 <= i < extents.len() ==> (#[trigger] extents[i]).offset_pages == start_of(extents, i),
        0 <= first <= end,
    ensures
        covered(extents, first, end) == greatest(
            least(start_of(extents, extents.len() as int), end) - first,
            0,
        ),
    decreases extents.len(),
{
    if extents.len() > 0 {
        let rest = extents.drop_last();
        assert(ordered(rest)) by {
            assert forall|i: int, j: int| 0 <= i < j < rest.len() implies (
            #[trigger] rest[i]).end() <= (#[trigger] rest[j]).offset_pages by {
                assert(extents[i].end() <= extents[j].offset_pages);
            }
            assert forall|i: int| 0 <= i < rest.len() implies (#[trigger] rest[i]).wf() by {
                assert(extents[i].wf());
            }
        }
        assert forall|i: int| 0 <= i < rest.len() implies (#[trigger] rest[i]).offset_pages
            == start_of(rest, i) by {
            assert(extents[i].offset_pages == start_of(extents, i));
        }
        covered_by_gapless(rest, first, end);
        let last = extents.len() - 1;
        assert(extents[last].offset_pages == start_of(extents, last));
        assert(start_of(extents, last) == start_of(rest, last));
        assert(extents[last].wf());
    }
}

impl OwnedBacking {
    /// The runs of pages to enter in the page table so that `range` shows the backing
    /// from byte `backing_offset` on. `room` says whether they can be listed, `refused`
    /// which of them the page table refuses first, and why.
    pub fn preflight_install(
        &self,
        range: PageRange,
        backing_offset: usize,
        room: bool,
        refused: Option<(usize, SpaceError)>,
    ) -> (r: Result<Vec<InstallSpan>, SpaceError>)
        requires
            self.wf(),
            range.wf(),
        ensures
            ({
                let first = (backing_offset / PAGE_SIZE) as int;
                let end = first + range.pages;
                let vpn = (range.start / PAGE_SIZE) as int;
                let spans = spans_of(self@.extents, first, end, vpn);
                if backing_offset % PAGE_SIZE != 0 || end > self@.pages {
                    r == Err::<Vec<InstallSpan>, _>(SpaceError::BadSegment)
                } else if !room {
                    r == Err::<Vec<InstallSpan>, _>(SpaceError::NoFrame)
                } else if refused is Some && (refused->0).0 < spans.len() {
                    r == Err::<Vec<InstallSpan>, _>((refused->0).1)
                } else if covered(self@.extents, first, end) != range.pages {
                    r == Err::<Vec<InstallSpan>, _>(SpaceError::BadSegment)
                } else {
                    r is Ok && r->Ok_0@ == spans
                }
            }),
    {
        if backing_offset % PAGE_SIZE != 0 {
            return Err(SpaceError::BadSegment);
        }
        let first_page: usize = backing_offset / PAGE_SIZE;
        let end_page: usize = match first_page.checked_add(range.pages) {
            None => {
                return Err(SpaceError::BadSegment);
            },
            Some(end) => end,
        };
        if end_page > self.pages {
            return Err(SpaceError::BadSegment);
        }
        if !room {
            return Err(SpaceError::NoFrame);
        }
        let vpn: usize = range.start / PAGE_SIZE;
        let mut spans: Vec<InstallSpan> = Vec::new();
        let mut prepared: usize = 0;
        let mut index: usize = 0;
        let ghost extents = self.extents@;
        while index < self.extents.len()
            invariant
                self.wf(),
                range.wf(),
                extents == self.extents@,
                index <= extents.len(),
                end_page == first_page + range.pages,
                vpn == range.start / PAGE_SIZE,
                spans@ == spans_of(
                    extents.take(index as int),
                    first_page as int,
                    end_page as int,
                    vpn as int,
                ),
                prepared == covered(
                    extents.take(index as int),
                    first_page as int,
                    end_page as int,
                ),
            decreases extents.len() - index,
        {
            let extent = self.extents[index];
            assert(extent.wf());
            let extent_end: usize = extent.offset_pages + extent.pages;
            let start: usize = if extent.offset_pages < first_page {
                first_page
            } else {
                extent.offset_pages
            };
            let end: usize = if extent_end < end_page {
                extent_end
            } else {
                end_page
            };
            proof {
                assert(extents.take(index + 1).drop_last() =~= extents.take(index as int));
                assert(ordered(extents.take(index + 1))) by {
                    let some = extents.take(index + 1);
                    assert forall|i: int, j: int| 0 <= i < j < some.len() implies (
                    #[trigger] some[i]).end() <= (#[trigger] some[j]).offset_pages by {
                        assert(extents[i].end() <= extents[j].offset_pages);
                    }
                    assert forall|i: int| 0 <= i < some.len() implies (
                    #[trigger] some[i]).wf() by {
                        assert(extents[i].wf());
                    }
                }
                covered_bound(extents.take(index + 1), first_page as int, end_page as int);
            }
            if start < end {
                spans.push(
                    InstallSpan {
                        vpn: vpn + (start - first_page),
                        pages: end - start,
                        ppn: extent.base + (start - extent.offset_pages),
                    },
                );
                prepared = prepared + (end - start);
            }
            index = index + 1;
        }
        assert(extents.take(index as int) =~= extents);
        match refused {
            Some((at, error)) => {
                if at < spans.len() {
                    return Err(error);
                }
            },
            None => {},
        }
        if prepared != range.pages {
            return Err(SpaceError::BadSegment);
        }
        Ok(spans)
    }
}

/// A complete backing can be installed wherever it reaches: no page is missing.
pub proof fn complete_backing_covers(state: BackingState, first: int, end: int)
    requires
        state.complete(),
        0 <= first <= end <= state.pages,
    ensures
        covered(state.extents, first, end) == end - first,
{
    covered_by_gapless(state.extents, first, end);
}

/// What is installed shows the backing: the virtual page that stands for page `p` is
/// entered with the frame of page `p`.
pub proof fn installed_pages_show_their_frames(
    extents: Seq<BackingExtent>,
    first: int,
    end: int,
    vpn: int,
    i: int,
    p: int,
)
    requires
        forall|k: int| 0 <= k < extents.len() ==> (#[trigger] extents[k]).wf(),
        0 <= first <= p < end,
        0 <= vpn,
        vpn + (end - first) <= usize::MAX,
        held_by(extents, i, p),
    ensures
        exists|j: int|
            0 <= j < spans_of(extents, first, end, vpn).len() && {
                let span = #[trigger] spans_of(extents, first, end, vpn)[j];
                &&& span.vpn <= vpn + (p - first) < span.vpn + span.pages
                &&& span.ppn + (vpn + (p - first) - span.vpn) == extents[i].frame(p)
            },
    decreases extents.len(),
{
    let spans = spans_of(extents, first, end, vpn);
    let rest = extents.drop_last();
    let before = spans_of(rest, first, end, vpn);
    let last = extents.len() - 1;
    assert(extents[last].wf());
    if i == last {
        assert(overlaps(extents.last(), first, end));
        let j = before.len() as int;
        assert(spans[j] == span_of(extents.last(), first, end, vpn));
    } else {
        assert(held_by(rest, i, p));
        assert forall|k: int| 0 <= k < rest.len() implies (#[trigger] rest[k]).wf() by {
            assert(extents[k].wf());
        }
        installed_pages_show_their_frames(rest, first, end, vpn, i, p);
        let j = choose|j: int|
            0 <= j < before.len() && {
                let span = #[trigger] before[j];
                &&& span.vpn <= vpn + (p - first) < span.vpn + span.pages
                &&& span.ppn + (vpn + (p - first) - span.vpn) == rest[i].frame(p)
            };
        assert(spans[j] == before[j]);
    }
}

impl OwnedBacking {
    /// Appends a run that is lent for now, behind what the backing has.
    pub fn append_borrowed(&mut self, base: usize, pages: usize)
        requires
            old(self)@.complete(),
            pages > 0,
            (old(self)@.pages + pages) * PAGE_SIZE <= usize::MAX,
            (base + pages) * PAGE_SIZE <= usize::MAX,
        ensures
            final(self).wf(),
            final(self)@.complete(),
            final(self)@ == (BackingState {
                pages: (old(self)@.pages + pages) as usize,
                extents: old(self)@.extents.push(
                    BackingExtent {
                        offset_pages: old(self)@.pages,
                        base,
                        pages,
                        holding: Holding::BootBorrowed,
                    },
                ),
                ..old(self)@
            }),
    {
        let ghost before = self@.extents;
        let offset_pages: usize = self.pages;
        self.extents.push(
            BackingExtent { offset_pages, base, pages, holding: Holding::BootBorrowed },
        );
        self.pages = self.pages + pages;
        proof {
            let n = before.len() as int;
            assert(start_of(before, n) == offset_pages);
            assert forall|i: int| 0 <= i < self@.extents.len() implies (
            #[trigger] self@.extents[i]).offset_pages == start_of(self@.extents, i) by {
                if i < n {
                    assert(before[i].offset_pages == start_of(before, i));
                }
                if i > 0 {
                    assert(self@.extents[i - 1] == before[i - 1]);
                }
            }
            assert forall|i: int, j: int| 0 <= i < j < self@.extents.len() implies (
            #[trigger] self@.extents[i]).end() <= (#[trigger] self@.extents[j]).offset_pages by {
                assert(before[i].end() <= offset_pages);
                if j < n {
                    assert(before[i].end() <= before[j].offset_pages);
                }
            }
            assert forall|i: int| 0 <= i < self@.extents.len() implies (
            #[trigger] self@.extents[i]).wf() by {
                if i < n {
                    assert(before[i].wf());
                }
            }
        }
    }

    /// Replaces the lent run by the owner itself, which has to be the very same frames.
    pub fn install_bootstrap_funding(&mut self, index: usize, base: usize, pages: usize)
        requires
            old(self).wf(),
            index < old(self)@.extents.len(),
            old(self)@.extents[index as int].holding == Holding::BootBorrowed,
            forall|k: int|
                0 <= k < index ==> (#[trigger] old(self)@.extents[k]).holding
                    != Holding::BootBorrowed,
            old(self)@.extents[index as int].base == base,
            old(self)@.extents[index as int].pages == pages,
        ensures
            final(self).wf(),
            final(self)@ == (BackingState {
                extents: old(self)@.extents.update(
                    index as int,
                    BackingExtent { holding: Holding::Boot, ..old(self)@.extents[index as int] },
                ),
                ..old(self)@
            }),
    {
        let extent = self.extents[index];
        let ghost before = self@.extents;
        self.extents.set(index, BackingExtent { holding: Holding::Boot, ..extent });
        proof {
            assert forall|i: int, j: int| 0 <= i < j < self@.extents.len() implies (
            #[trigger] self@.extents[i]).end() <= (#[trigger] self@.extents[j]).offset_pages by {
                assert(before[i].end() <= before[j].offset_pages);
            }
            assert forall|i: int| 0 <= i < self@.extents.len() implies (
            #[trigger] self@.extents[i]).wf() && self@.extents[i].end() <= self.pages by {
                assert(before[i].wf() && before[i].end() <= self.pages);
            }
        }
    }

    /// Where the first lent run stands, if there is one.
    pub fn borrowed(&self) -> (r: Option<usize>)
        ensures
            match r {
                Some(index) => index < self@.extents.len() && self@.extents[index as int].holding
                    == Holding::BootBorrowed && forall|k: int|
                    0 <= k < index ==> (#[trigger] self@.extents[k]).holding
                        != Holding::BootBorrowed,
                None => forall|k: int|
                    0 <= k < self@.extents.len() ==> (#[trigger] self@.extents[k]).holding
                        != Holding::BootBorrowed,
            },
    {
        let mut index: usize = 0;
        while index < self.extents.len()
            invariant
                index <= self@.extents.len(),
                forall|k: int|
                    0 <= k < index ==> (#[trigger] self@.extents[k]).holding
                        != Holding::BootBorrowed,
            decreases self@.extents.len() - index,
        {
            if self.extents[index].holding == Holding::BootBorrowed {
                return Some(index);
            }
            index = index + 1;
        }
        None
    }
}

/// Funded runs are laid out one behind the other from page 0 on, each with the frames it was
/// handed out with: none is moved, cut or left out.
pub proof fn runs_are_laid_out_in_order(funded: Seq<(usize, usize)>, i: int)
    requires
        total_pages(funded) <= usize::MAX,
        0 <= i < funded.len(),
    ensures
        ({
            let laid = laid_out(funded);
            &&& laid.len() == funded.len()
            &&& laid[0].offset_pages == 0
            &&& laid[i].base == funded[i].0 && laid[i].pages == funded[i].1
            &&& laid[i].offset_pages + laid[i].pages == if i + 1 < funded.len() {
                laid[i + 1].offset_pages as int
            } else {
                total_pages(funded)
            }
        }),
{
    object_spans_are_consecutive(0, funded, i);
    assert forall|k: int| 0 <= k < funded.len() implies laid_out(funded)[k].offset_pages
        == #[trigger] placed_spans(0, funded)[k].vpn by {}
    assert(placed_spans(0, funded)[0].vpn == 0);
    assert(placed_spans(0, funded)[i].pages == funded[i].1);
    if i + 1 < funded.len() {
        assert(placed_spans(0, funded)[i + 1].vpn == laid_out(funded)[i + 1].offset_pages);
    }
}

/// How many pages runs have: all that each of them has.
pub proof fn pages_add_up(funded: Seq<(usize, usize)>, run: (usize, usize))
    ensures
        total_pages(funded.push(run)) == total_pages(funded) + run.1,
        total_pages(Seq::empty()) == 0,
{
    assert(funded.push(run).drop_last() =~= funded);
}

/// Why a backing is not had, in this order: no pages are asked for, no runs were had, there is no
/// memory, or there are more runs than places for them.
pub proof fn allocation_stops_at_the_first_fault(
    pages: int,
    runs: Result<Vec<(usize, usize)>, SpaceError>,
    slots: usize,
    room: bool,
)
    ensures
        allocate_refusal(pages, runs, slots, room) is None <==> pages != 0 && room && (
        runs matches Ok(list) && list@.len() <= slots),
        pages == 0 ==> allocate_refusal(pages, runs, slots, room) == Some(SpaceError::BadSegment),
        pages != 0 && runs is Err ==> allocate_refusal(pages, runs, slots, room) == Some(
            runs->Err_0,
        ),
        pages != 0 && runs is Ok && !room ==> allocate_refusal(pages, runs, slots, room) == Some(
            SpaceError::NoFrame,
        ),
        (runs matches Ok(list) && list@.len() > slots) && pages != 0 && room ==> allocate_refusal(
            pages,
            runs,
            slots,
            room,
        ) == Some(SpaceError::ReachLimit),
{
}

/// Taking pages out of the middle of a run leaves two, out of an end of it one, and the whole run
/// none; all other runs stay.
pub proof fn cutting_leaves_the_ends(
    extents: Seq<BackingExtent>,
    at: int,
    start: int,
    end: int,
)
    requires
        0 <= at < extents.len(),
        extents[at].wf(),
        extents[at].offset_pages <= start < end <= extents[at].end(),
    ensures
        ({
            let after = cut_from(extents, at, start, end);
            let left: int = if extents[at].offset_pages < start {
                1
            } else {
                0
            };
            let right: int = if end < extents[at].end() {
                1
            } else {
                0
            };
            &&& cuts(extents[at], start, end) == left + right
            &&& after.len() == extents.len() - 1 + left + right
            &&& forall|i: int| 0 <= i < at ==> #[trigger] after[i] == extents[i]
            &&& forall|i: int|
                at < i < extents.len() ==> #[trigger] extents[i] == after[i - 1 + left + right]
        }),
{
}

/// Only pages of the backing are entered: every span lies within one run's share of the pages
/// asked for, each page with the frame that the run has for it.
pub proof fn spans_show_only_the_backing(
    extents: Seq<BackingExtent>,
    first: int,
    end: int,
    vpn: int,
    j: int,
)
    requires
        forall|k: int| 0 <= k < extents.len() ==> (#[trigger] extents[k]).wf(),
        0 <= first <= end,
        0 <= vpn,
        vpn + (end - first) <= usize::MAX,
        0 <= j < spans_of(extents, first, end, vpn).len(),
    ensures
        ({
            let span = spans_of(extents, first, end, vpn)[j];
            let page = first + (span.vpn - vpn);
            &&& span.pages > 0
            &&& vpn <= span.vpn && span.vpn + span.pages <= vpn + (end - first)
            &&& exists|i: int|
                #![trigger extents[i]]
                {
                    &&& 0 <= i < extents.len()
                    &&& extents[i].offset_pages <= page && page + span.pages <= extents[i].end()
                    &&& span.ppn == extents[i].base + (page - extents[i].offset_pages)
                }
        }),
    decreases extents.len(),
{
    let rest = extents.drop_last();
    let before = spans_of(rest, first, end, vpn);
    if j < before.len() {
        spans_show_only_the_backing(rest, first, end, vpn, j);
        let span = before[j];
        let page = first + (span.vpn - vpn);
        let i = choose|i: int|
            #![trigger rest[i]]
            {
                &&& 0 <= i < rest.len()
                &&& rest[i].offset_pages <= page && page + span.pages <= rest[i].end()
                &&& span.ppn == rest[i].base + (page - rest[i].offset_pages)
            };
        assert(extents[i] == rest[i]);
    } else {
        assert(extents[extents.len() - 1] == extents.last());
        assert(extents.last().wf());
    }
}

/// A run gets what the source has for its pages and no more: as much as its pages hold, but for the
/// last that the source reaches, which gets the rest.
pub proof fn runs_get_no_more_than_the_source_has(e: BackingExtent, len: int)
    requires
        e.wf(),
        e.offset_pages * PAGE_SIZE < len <= usize::MAX,
    ensures
        ({
            let chunk = chunk_of(e, len);
            &&& chunk.source == e.offset_pages * 4096 && chunk.physical == e.base * 4096
            &&& 0 < chunk.bytes <= e.pages * 4096 && chunk.source + chunk.bytes <= len
            &&& chunk.bytes == e.pages * 4096 || chunk.source + chunk.bytes == len
        }),
{
}

} // verus!
