//! Laying an executable image out in pages.
use vstd::prelude::*;

use crate::map_intent::UserSpace;
use crate::memory_object::Protection;
use crate::process::PAGE_SIZE;
use crate::space::SpaceError;

verus! {

/// A segment of an image that is to be loaded.
#[derive(Clone, Copy, Debug, PartialEq, Eq, Structural)]
pub struct LoadSegment {
    pub vaddr: usize,
    /// Where its bytes start in the file.
    pub offset: usize,
    pub filesz: usize,
    pub memsz: usize,
    pub readable: bool,
    pub writable: bool,
    pub executable: bool,
}

/// What a page has to allow.
#[derive(Clone, Copy, Debug, PartialEq, Eq, Structural)]
pub struct PageNeeds {
    pub read: bool,
    pub write: bool,
    pub execute: bool,
}

impl LoadSegment {
    /// Address behind the segment.
    pub open spec fn end(self) -> int {
        self.vaddr + self.memsz
    }

    /// The first page.
    pub open spec fn first_page(self) -> int {
        self.vaddr as int / PAGE_SIZE as int
    }

    /// The page behind the last one.
    pub open spec fn end_page(self) -> int {
        (self.end() + (PAGE_SIZE - 1)) / PAGE_SIZE as int
    }

    /// The segment lies on page `p`.
    pub open spec fn covers(self, p: int) -> bool {
        self.first_page() <= p < self.end_page()
    }

    /// The segment can be loaded below `top`: its bytes fit, they stand at the same place
    /// within a page as in the file, and it does not reach too far.
    pub open spec fn ok(self, top: int) -> bool {
        &&& self.filesz <= self.memsz
        &&& self.vaddr % PAGE_SIZE == self.offset % PAGE_SIZE
        &&& self.end() <= top
    }

    /// What a page of the segment has to allow, where `before` is what it has to allow
    /// anyway.
    pub open spec fn joined(self, before: Option<PageNeeds>) -> PageNeeds {
        match before {
            None => PageNeeds {
                read: self.readable,
                write: self.writable,
                execute: self.executable,
            },
            Some(needs) => PageNeeds {
                read: needs.read || self.readable,
                write: needs.write || self.writable,
                execute: needs.execute || self.executable,
            },
        }
    }
}

/// What page `p` has to allow: all that the segments on it need. `None` if no segment is
/// on it.
pub open spec fn needs(segments: Seq<LoadSegment>, p: int) -> Option<PageNeeds>
    decreases segments.len(),
{
    if segments.len() == 0 {
        None
    } else {
        let before = needs(segments.drop_last(), p);
        if segments.last().covers(p) {
            Some(segments.last().joined(before))
        } else {
            before
        }
    }
}

/// How far the segments reach.
pub open spec fn reach(segments: Seq<LoadSegment>) -> int
    decreases segments.len(),
{
    if segments.len() == 0 {
        0
    } else {
        let before = reach(segments.drop_last());
        if before < segments.last().end() {
            segments.last().end()
        } else {
            before
        }
    }
}

/// A page can be made to allow exactly this: whatever is written or executed is also
/// read, and nothing is both written and executed.
pub open spec fn allowable(n: PageNeeds) -> bool {
    (n.read || !(n.write || n.execute)) && !(n.write && n.execute)
}

/// The protection that allows this.
pub open spec fn protection_for(n: PageNeeds) -> Protection {
    if n.execute {
        Protection::ReadExecute
    } else if n.write {
        Protection::ReadWrite
    } else {
        Protection::ReadOnly
    }
}

/// A page with what it has to allow.
#[derive(Clone, Copy, Debug, PartialEq, Eq, Structural)]
pub struct PlannedPage {
    pub vpn: usize,
    pub needs: PageNeeds,
}

/// A run of pages, up to but not with `end`.
#[derive(Clone, Copy, Debug, PartialEq, Eq, Structural)]
pub struct PageRun {
    pub start: usize,
    pub end: usize,
    pub protection: Protection,
}

/// Entry `i` is that of page `p`.
pub open spec fn at(plan: Seq<PlannedPage>, i: int, p: int) -> bool {
    0 <= i < plan.len() && plan[i].vpn == p
}

/// The pages are listed once each, by number.
pub open spec fn ascending(plan: Seq<PlannedPage>) -> bool {
    forall|i: int, j: int|
        0 <= i < j < plan.len() ==> (#[trigger] plan[i]).vpn < (#[trigger] plan[j]).vpn
}

/// What page `p` has to allow if of `segment` only the pages before `upto` count.
spec fn partly(segments: Seq<LoadSegment>, segment: LoadSegment, upto: int, p: int) -> Option<
    PageNeeds,
> {
    if segment.first_page() <= p < upto {
        Some(segment.joined(needs(segments, p)))
    } else {
        needs(segments, p)
    }
}

/// The plan says of every page what `partly` says.
spec fn plans(
    plan: Seq<PlannedPage>,
    segments: Seq<LoadSegment>,
    segment: LoadSegment,
    upto: int,
) -> bool {
    &&& ascending(plan)
    &&& forall|i: int|
        0 <= i < plan.len() ==> partly(segments, segment, upto, (#[trigger] plan[i]).vpn as int)
            == Some(plan[i].needs)
    &&& forall|p: int| #[trigger]
        partly(segments, segment, upto, p) is Some ==> exists|i: int| at(plan, i, p)
}

/// Where page `vpn` stands, or where it would have to stand.
fn place(plan: &Vec<PlannedPage>, vpn: usize) -> (r: (usize, bool))
    requires
        ascending(plan@),
    ensures
        r.0 <= plan@.len(),
        r.1 ==> at(plan@, r.0 as int, vpn as int),
        forall|i: int| 0 <= i < r.0 ==> (#[trigger] plan@[i]).vpn < vpn,
        !r.1 ==> forall|i: int| r.0 <= i < plan@.len() ==> vpn < (#[trigger] plan@[i]).vpn,
{
    let mut low: usize = 0;
    let mut high: usize = plan.len();
    while low < high
        invariant
            ascending(plan@),
            low <= high <= plan@.len(),
            forall|i: int| 0 <= i < low ==> (#[trigger] plan@[i]).vpn < vpn,
            forall|i: int| high <= i < plan@.len() ==> vpn < (#[trigger] plan@[i]).vpn,
        decreases high - low,
    {
        let middle: usize = low + (high - low) / 2;
        let found: usize = plan[middle].vpn;
        if found == vpn {
            return (middle, true);
        }
        if found < vpn {
            low = middle + 1;
        } else {
            high = middle;
        }
    }
    (low, false)
}

/// Enters one page of `segment`.
fn add_page(
    plan: &mut Vec<PlannedPage>,
    segment: LoadSegment,
    vpn: usize,
    Ghost(segments): Ghost<Seq<LoadSegment>>,
)
    requires
        plans(old(plan)@, segments, segment, vpn as int),
        segment.first_page() <= vpn,
    ensures
        plans(final(plan)@, segments, segment, vpn + 1),
{
    let ghost before = plan@;
    let (index, present) = place(plan, vpn);
    if present {
        let old_needs = plan[index].needs;
        let joined = PageNeeds {
            read: old_needs.read || segment.readable,
            write: old_needs.write || segment.writable,
            execute: old_needs.execute || segment.executable,
        };
        plan.set(index, PlannedPage { vpn, needs: joined });
    } else {
        let fresh = PageNeeds {
            read: segment.readable,
            write: segment.writable,
            execute: segment.executable,
        };
        plan.insert(index, PlannedPage { vpn, needs: fresh });
    }
    proof {
        let after = plan@;
        let shift = if present {
            0int
        } else {
            1int
        };
        assert(partly(segments, segment, vpn as int, vpn as int) == needs(segments, vpn as int));
        if !present {
            if needs(segments, vpn as int) is Some {
                let i = choose|i: int| at(before, i, vpn as int);
                assert(at(before, i, vpn as int));
                assert(before[i].vpn == vpn);
            }
        } else {
            assert(partly(segments, segment, vpn as int, before[index as int].vpn as int) == Some(
                before[index as int].needs,
            ));
        }
        assert forall|i: int| 0 <= i < after.len() && i != index implies after[i] == (if i < index {
            before[i]
        } else {
            before[i - shift]
        }) && (#[trigger] after[i]).vpn != vpn by {
            if i < index {
                assert(before[i].vpn < vpn);
            } else {
                if present {
                    assert(before[index as int].vpn < before[i].vpn);
                } else {
                    assert(vpn < before[i - 1].vpn);
                }
            }
        }
        assert(ascending(after)) by {
            assert forall|i: int, j: int| 0 <= i < j < after.len() implies (#[trigger] after[i]).vpn
                < (#[trigger] after[j]).vpn by {
                if !present {
                    if i < index {
                        assert(before[i].vpn < vpn);
                    }
                    if j > index {
                        assert(vpn < before[j - 1].vpn);
                    }
                }
            }
        }
        assert forall|i: int| 0 <= i < after.len() implies partly(
            segments,
            segment,
            vpn + 1,
            (#[trigger] after[i]).vpn as int,
        ) == Some(after[i].needs) by {
            if i != index {
                let k = if i < index {
                    i
                } else {
                    i - shift
                };
                assert(partly(segments, segment, vpn as int, before[k].vpn as int) == Some(
                    before[k].needs,
                ));
            }
        }
        assert forall|p: int| #[trigger] partly(segments, segment, vpn + 1, p) is Some implies exists|
            i: int,
        | at(after, i, p) by {
            if p == vpn {
                assert(at(after, index as int, p));
            } else {
                assert(partly(segments, segment, vpn as int, p) is Some);
                let k = choose|k: int| at(before, k, p);
                assert(at(before, k, p));
                let i = if k < index {
                    k
                } else {
                    k + shift
                };
                assert(at(after, i, p));
            }
        }
    }
}

/// The runs of pages with equal protection: each page of `plan` is in exactly one, no two
/// could be joined.
pub open spec fn runs_of(segments: Seq<LoadSegment>, runs: Seq<PageRun>) -> bool {
    &&& apart(runs)
    &&& forall|i: int, p: int|
        0 <= i < runs.len() && (#[trigger] runs[i]).start <= p < runs[i].end ==> (
        #[trigger] needs(segments, p) matches Some(n) && protection_for(n) == runs[i].protection)
    &&& forall|p: int| #[trigger]
        needs(segments, p) is Some ==> exists|i: int| in_run(runs, i, p)
}

/// Page `p` is in run `i`.
pub open spec fn in_run(runs: Seq<PageRun>, i: int, p: int) -> bool {
    0 <= i < runs.len() && runs[i].start <= p < runs[i].end
}

/// An image can be laid out below `top`.
pub open spec fn loadable(segments: Seq<LoadSegment>, top: int) -> bool {
    &&& forall|i: int| 0 <= i < segments.len() ==> (#[trigger] segments[i]).ok(top)
    &&& forall|p: int| #[trigger] needs(segments, p) matches Some(n) ==> allowable(n)
}

/// Lists the pages of the segments with what they have to allow, and how far they
/// reach; an error if a segment cannot be loaded.
fn plan_pages(user: UserSpace, segments: &Vec<LoadSegment>) -> (r: Result<
    (Vec<PlannedPage>, usize),
    SpaceError,
>)
    requires
        user.wf(),
    ensures
        r is Err ==> r == Err::<(Vec<PlannedPage>, usize), _>(SpaceError::BadSegment),
        r is Ok <==> forall|i: int|
            0 <= i < segments@.len() ==> (#[trigger] segments@[i]).ok(user.top as int),
        r matches Ok((plan, top)) ==> {
            &&& top == reach(segments@)
            &&& top <= user.top
            &&& ascending(plan@)
            &&& forall|i: int|
                0 <= i < plan@.len() ==> needs(segments@, (#[trigger] plan@[i]).vpn as int) == Some(
                    plan@[i].needs,
                )
            &&& forall|p: int| #[trigger]
                needs(segments@, p) is Some ==> exists|i: int| at(plan@, i, p)
        },
{
    let mut plan: Vec<PlannedPage> = Vec::new();
    let mut top: usize = 0;
    let mut index: usize = 0;
    assert(segments@.take(0) =~= Seq::empty());
    while index < segments.len()
        invariant
            user.wf(),
            index <= segments@.len(),
            forall|i: int| 0 <= i < index ==> (#[trigger] segments@[i]).ok(user.top as int),
            top == reach(segments@.take(index as int)),
            top <= user.top,
            ascending(plan@),
            forall|i: int|
                0 <= i < plan@.len() ==> needs(
                    segments@.take(index as int),
                    (#[trigger] plan@[i]).vpn as int,
                ) == Some(plan@[i].needs),
            forall|p: int| #[trigger]
                needs(segments@.take(index as int), p) is Some ==> exists|i: int| at(plan@, i, p),
        decreases segments@.len() - index,
    {
        let segment = segments[index];
        assert(segment == segments@[index as int]);
        if segment.filesz > segment.memsz {
            return Err(SpaceError::BadSegment);
        }
        if segment.vaddr % PAGE_SIZE != segment.offset % PAGE_SIZE {
            return Err(SpaceError::BadSegment);
        }
        let end: usize = match segment.vaddr.checked_add(segment.memsz) {
            None => {
                return Err(SpaceError::BadSegment);
            },
            Some(end) => end,
        };
        if end > user.top {
            return Err(SpaceError::BadSegment);
        }
        let ghost before = segments@.take(index as int);
        let mut vpn: usize = segment.vaddr / PAGE_SIZE;
        let end_page: usize = if end % PAGE_SIZE == 0 {
            end / PAGE_SIZE
        } else {
            end / PAGE_SIZE + 1
        };
        assert(end_page == segment.end_page());
        proof {
            assert forall|p: int| #[trigger] partly(before, segment, vpn as int, p) == needs(
                before,
                p,
            ) by {}
        }
        while vpn < end_page
            invariant
                vpn >= segment.first_page(),
                segment.first_page() <= end_page ==> vpn <= end_page,
                plans(plan@, before, segment, vpn as int),
            decreases end_page - vpn,
        {
            add_page(&mut plan, segment, vpn, Ghost(before));
            vpn = vpn + 1;
        }
        if top < end {
            top = end;
        }
        proof {
            let after = segments@.take(index + 1);
            assert(after.drop_last() =~= before);
            assert(after.last() == segment);
            assert forall|p: int| needs(after, p) == #[trigger] partly(
                before,
                segment,
                vpn as int,
                p,
            ) by {}
            assert forall|i: int| 0 <= i < plan@.len() implies needs(
                after,
                (#[trigger] plan@[i]).vpn as int,
            ) == Some(plan@[i].needs) by {
                assert(partly(before, segment, vpn as int, plan@[i].vpn as int) == Some(
                    plan@[i].needs,
                ));
            }
            assert forall|p: int| #[trigger] needs(after, p) is Some implies exists|i: int| at(
                plan@,
                i,
                p,
            ) by {
                assert(partly(before, segment, vpn as int, p) is Some);
            }
        }
        index = index + 1;
    }
    assert(segments@.take(index as int) =~= segments@);
    Ok((plan, top))
}

/// A page that something lies on stands below where user memory ends.
proof fn needed_page_is_low(segments: Seq<LoadSegment>, user: UserSpace, p: int)
    requires
        user.wf(),
        forall|i: int| 0 <= i < segments.len() ==> (#[trigger] segments[i]).ok(user.top as int),
        needs(segments, p) is Some,
    ensures
        0 <= p,
        (p + 1) * PAGE_SIZE <= user.top,
    decreases segments.len(),
{
    let last = segments.last();
    let rest = segments.drop_last();
    assert(segments[segments.len() - 1].ok(user.top as int));
    if !last.covers(p) {
        assert forall|i: int| 0 <= i < rest.len() implies (#[trigger] rest[i]).ok(
            user.top as int,
        ) by {
            assert(segments[i].ok(user.top as int));
        }
        needed_page_is_low(rest, user, p);
    } else {
        assert(user.top as int == (user.top as int / PAGE_SIZE as int) * PAGE_SIZE);
    }
}

/// The protection that allows this.
fn choose_protection(n: PageNeeds) -> (r: Protection)
    ensures
        r == protection_for(n),
{
    if n.execute {
        Protection::ReadExecute
    } else if n.write {
        Protection::ReadWrite
    } else {
        Protection::ReadOnly
    }
}

/// Page `p` of run `i` is among the first `n` of the plan, and the run suits it.
spec fn page_of_run(
    plan: Seq<PlannedPage>,
    n: int,
    runs: Seq<PageRun>,
    i: int,
    p: int,
) -> bool {
    exists|k: int|
        k < n && #[trigger] at(plan, k, p) && protection_for(plan[k].needs) == runs[i].protection
}

/// Page `k` of the plan is in a run.
spec fn has_run(plan: Seq<PlannedPage>, runs: Seq<PageRun>, k: int) -> bool {
    exists|i: int| in_run(runs, i, plan[k].vpn as int)
}

/// Runs with pages, by number, none of which could be joined.
pub open spec fn apart(runs: Seq<PageRun>) -> bool {
    &&& forall|i: int| 0 <= i < runs.len() ==> (#[trigger] runs[i]).start < runs[i].end
    &&& forall|i: int, j: int|
        0 <= i < j < runs.len() ==> (#[trigger] runs[i]).end <= (#[trigger] runs[j]).start
    &&& forall|i: int, j: int|
        0 <= i < runs.len() && j == i + 1 && j < runs.len() && (#[trigger] runs[i]).end == (
        #[trigger] runs[j]).start ==> runs[i].protection != runs[j].protection
}

/// The runs of the first `n` pages of the plan.
spec fn runs_so_far(plan: Seq<PlannedPage>, n: int, runs: Seq<PageRun>) -> bool {
    &&& apart(runs)
    &&& forall|i: int, p: int|
        in_run(runs, i, p) ==> #[trigger] page_of_run(plan, n, runs, i, p)
    &&& forall|k: int| 0 <= k < n ==> #[trigger] has_run(plan, runs, k)
    &&& n > 0 ==> runs.len() > 0 && runs.last().end == plan[n - 1].vpn + 1
    &&& n == 0 ==> runs.len() == 0
}

/// The runs after the next page of the plan is added.
spec fn extended(before: Seq<PageRun>, page: PlannedPage) -> Seq<PageRun> {
    let protection = protection_for(page.needs);
    let end = (page.vpn + 1) as usize;
    if before.len() > 0 && before.last().end == page.vpn && before.last().protection == protection {
        before.update(before.len() - 1, PageRun { end, ..before.last() })
    } else {
        before.push(PageRun { start: page.vpn, end, protection })
    }
}

/// Adding the next page keeps the runs apart.
proof fn extended_stays_apart(before: Seq<PageRun>, page: PlannedPage)
    requires
        apart(before),
        page.vpn < usize::MAX,
        before.len() > 0 ==> before.last().end <= page.vpn,
    ensures
        apart(extended(before, page)),
{
    let after = extended(before, page);
    if before.len() > 0 {
        assert(before[before.len() - 1].start < before[before.len() - 1].end);
    }
    assert forall|i: int, j: int| 0 <= i < j < after.len() implies (#[trigger] after[i]).end <= (
    #[trigger] after[j]).start by {
        if j < before.len() {
            assert(before[i].end <= before[j].start);
        } else if i < before.len() - 1 {
            assert(before[i].end <= before[before.len() - 1].start);
        }
    }
}

/// Adding the next page keeps the runs those of the plan.
proof fn next_page(plan: Seq<PlannedPage>, n: int, before: Seq<PageRun>)
    requires
        ascending(plan),
        0 <= n < plan.len(),
        plan[n].vpn < usize::MAX,
        runs_so_far(plan, n, before),
    ensures
        runs_so_far(plan, n + 1, extended(before, plan[n])),
{
    let page = plan[n];
    let after = extended(before, page);
    if n > 0 {
        assert(plan[n - 1].vpn < plan[n].vpn);
    }
    extended_stays_apart(before, page);
    assert forall|i: int, p: int| in_run(after, i, p) implies #[trigger] page_of_run(
        plan,
        n + 1,
        after,
        i,
        p,
    ) by {
        if p == page.vpn && i == after.len() - 1 {
            assert(at(plan, n, p));
        } else {
            assert(in_run(before, i, p));
            assert(page_of_run(plan, n, before, i, p));
            let k = choose|k: int|
                k < n && #[trigger] at(plan, k, p) && protection_for(plan[k].needs)
                    == before[i].protection;
            assert(at(plan, k, p));
        }
    }
    assert forall|k: int| 0 <= k < n + 1 implies #[trigger] has_run(plan, after, k) by {
        if k == n {
            assert(in_run(after, after.len() - 1, page.vpn as int));
        } else {
            assert(has_run(plan, before, k));
            let i = choose|i: int| in_run(before, i, plan[k].vpn as int);
            assert(in_run(after, i, plan[k].vpn as int));
        }
    }
}

/// Joins the pages of the plan to runs.
fn join_runs(plan: &Vec<PlannedPage>) -> (r: Vec<PageRun>)
    requires
        ascending(plan@),
        forall|i: int| 0 <= i < plan@.len() ==> (#[trigger] plan@[i]).vpn < usize::MAX,
    ensures
        runs_so_far(plan@, plan@.len() as int, r@),
{
    let mut runs: Vec<PageRun> = Vec::new();
    let mut next: usize = 0;
    while next < plan.len()
        invariant
            next <= plan@.len(),
            ascending(plan@),
            forall|i: int| 0 <= i < plan@.len() ==> (#[trigger] plan@[i]).vpn < usize::MAX,
            runs_so_far(plan@, next as int, runs@),
        decreases plan@.len() - next,
    {
        let page = plan[next];
        let protection = choose_protection(page.needs);
        let ghost before = runs@;
        assert(plan@[next as int].vpn < usize::MAX);
        proof {
            next_page(plan@, next as int, before);
        }
        let mut joined: bool = false;
        if runs.len() > 0 {
            let last: usize = runs.len() - 1;
            let run = runs[last];
            if run.end == page.vpn && run.protection == protection {
                runs.set(last, PageRun { end: page.vpn + 1, ..run });
                joined = true;
            }
        }
        if !joined {
            runs.push(PageRun { start: page.vpn, end: page.vpn + 1, protection });
        }
        assert(runs@ =~= extended(before, page));
        next = next + 1;
    }
    runs
}

/// The runs of the whole plan are those of the image.
proof fn runs_of_the_plan(
    segments: Seq<LoadSegment>,
    user: UserSpace,
    plan: Seq<PlannedPage>,
    runs: Seq<PageRun>,
)
    requires
        user.wf(),
        forall|i: int| 0 <= i < segments.len() ==> (#[trigger] segments[i]).ok(user.top as int),
        forall|i: int|
            0 <= i < plan.len() ==> needs(segments, (#[trigger] plan[i]).vpn as int) == Some(
                plan[i].needs,
            ),
        forall|p: int| #[trigger]
            needs(segments, p) is Some ==> exists|i: int| at(plan, i, p),
        runs_so_far(plan, plan.len() as int, runs),
    ensures
        runs_of(segments, runs),
        forall|i: int| 0 <= i < runs.len() ==> (#[trigger] runs[i]).end * PAGE_SIZE <= user.top,
{
    let n = plan.len() as int;
    assert forall|i: int, p: int|
        0 <= i < runs.len() && (#[trigger] runs[i]).start <= p < runs[i].end implies (
    #[trigger] needs(segments, p) matches Some(x) && protection_for(x) == runs[i].protection) by {
        assert(in_run(runs, i, p));
        assert(page_of_run(plan, n, runs, i, p));
        let k = choose|k: int|
            k < n && #[trigger] at(plan, k, p) && protection_for(plan[k].needs)
                == runs[i].protection;
        assert(needs(segments, plan[k].vpn as int) == Some(plan[k].needs));
    }
    assert forall|p: int| #[trigger] needs(segments, p) is Some implies exists|i: int| in_run(
        runs,
        i,
        p,
    ) by {
        let k = choose|k: int| at(plan, k, p);
        assert(has_run(plan, runs, k));
    }
    assert forall|i: int| 0 <= i < runs.len() implies (#[trigger] runs[i]).end * PAGE_SIZE
        <= user.top by {
        let p = runs[i].end - 1;
        assert(runs[i].start <= p < runs[i].end);
        assert(needs(segments, p) is Some);
        needed_page_is_low(segments, user, p);
    }
}

impl PageRun {
    /// Address of the first page.
    pub fn vaddr(&self) -> (r: usize)
        requires
            self.start < self.end,
            self.end * PAGE_SIZE <= usize::MAX,
        ensures
            r == self.start * PAGE_SIZE,
    {
        self.start * PAGE_SIZE
    }

    /// How long the run is.
    pub fn bytes(&self) -> (r: usize)
        requires
            self.start < self.end,
            self.end * PAGE_SIZE <= usize::MAX,
        ensures
            r == (self.end - self.start) * PAGE_SIZE,
    {
        (self.end - self.start) * PAGE_SIZE
    }
}

/// The address rounded up to a whole page.
pub open spec fn page_up(address: int) -> int {
    (address + (PAGE_SIZE - 1)) / PAGE_SIZE as int * PAGE_SIZE
}

/// The runs of pages to map for an image, and where it ends. A page that several segments
/// share allows what each of them needs. `room` says whether the runs can be listed.
pub fn plan_elf_layout(user: UserSpace, segments: &Vec<LoadSegment>, room: bool) -> (r: Result<
    (Vec<PageRun>, usize),
    SpaceError,
>)
    requires
        user.wf(),
    ensures
        r is Ok <==> loadable(segments@, user.top as int) && room,
        r matches Err(error) ==> error == if loadable(segments@, user.top as int) {
            SpaceError::NoFrame
        } else {
            SpaceError::BadSegment
        },
        r matches Ok((runs, image_end)) ==> {
            &&& runs_of(segments@, runs@)
            &&& forall|i: int| 0 <= i < runs@.len() ==> (#[trigger] runs@[i]).end * PAGE_SIZE
                <= user.top
            &&& image_end == page_up(reach(segments@))
            &&& image_end <= user.top
        },
{
    let (plan, top) = match plan_pages(user, segments) {
        Err(error) => {
            return Err(error);
        },
        Ok(planned) => planned,
    };
    let ghost all = segments@;
    let mut index: usize = 0;
    while index < plan.len()
        invariant
            index <= plan@.len(),
            all == segments@,
            forall|i: int|
                0 <= i < plan@.len() ==> needs(all, (#[trigger] plan@[i]).vpn as int) == Some(
                    plan@[i].needs,
                ),
            forall|i: int| 0 <= i < index ==> allowable((#[trigger] plan@[i]).needs),
        decreases plan@.len() - index,
    {
        let page = plan[index];
        let n = page.needs;
        if (!n.read && (n.write || n.execute)) || (n.write && n.execute) {
            proof {
                assert(plan@[index as int] == page);
                assert(needs(all, page.vpn as int) == Some(n));
                assert(!allowable(n));
            }
            return Err(SpaceError::BadSegment);
        }
        index = index + 1;
    }
    proof {
        assert forall|p: int| #[trigger] needs(all, p) is Some implies allowable(
            needs(all, p)->0,
        ) by {
            let i = choose|i: int| at(plan@, i, p);
            assert(at(plan@, i, p));
            assert(needs(all, plan@[i].vpn as int) == Some(plan@[i].needs));
        }
        assert(loadable(all, user.top as int));
    }
    if !room {
        return Err(SpaceError::NoFrame);
    }
    proof {
        assert forall|i: int| 0 <= i < plan@.len() implies (#[trigger] plan@[i]).vpn
            < usize::MAX by {
            needed_page_is_low(all, user, plan@[i].vpn as int);
        }
    }
    let runs = join_runs(&plan);
    proof {
        runs_of_the_plan(all, user, plan@, runs@);
    }
    assert(user.top as int == (user.top as int / PAGE_SIZE as int) * PAGE_SIZE);
    let image_end: usize = if top % PAGE_SIZE == 0 {
        top
    } else {
        (top / PAGE_SIZE + 1) * PAGE_SIZE
    };
    Ok((runs, image_end))
}

/// The bytes of a segment in a file of `file_len` bytes.
pub fn segment_source(segment: LoadSegment, file_len: usize) -> (r: Result<
    (usize, usize),
    SpaceError,
>)
    ensures
        r == if segment.offset + segment.filesz <= file_len {
            Ok::<_, SpaceError>((segment.offset, (segment.offset + segment.filesz) as usize))
        } else {
            Err(SpaceError::BadSegment)
        },
{
    match segment.offset.checked_add(segment.filesz) {
        None => Err(SpaceError::BadSegment),
        Some(end) => if end > file_len {
            Err(SpaceError::BadSegment)
        } else {
            Ok((segment.offset, end))
        },
    }
}

/// Why segment `i` could not be written, if it could not.
pub open spec fn segment_fault(
    segment: LoadSegment,
    file_len: int,
    written: Result<(), SpaceError>,
) -> Option<SpaceError> {
    if segment.offset + segment.filesz > file_len {
        Some(SpaceError::BadSegment)
    } else if written is Err {
        Some(written->Err_0)
    } else {
        None
    }
}

/// The first fault among the segments from `from` on.
pub open spec fn first_fault(
    segments: Seq<LoadSegment>,
    file_len: int,
    written: Seq<Result<(), SpaceError>>,
    from: int,
) -> Option<SpaceError>
    decreases segments.len() - from,
{
    if from >= segments.len() {
        None
    } else {
        match segment_fault(segments[from], file_len, written[from]) {
            Some(error) => Some(error),
            None => first_fault(segments, file_len, written, from + 1),
        }
    }
}

/// Bytes of a file that go to memory: `len` of them from `offset` on, to `vaddr`.
#[derive(Clone, Copy, Debug, PartialEq, Eq, Structural)]
pub struct SegmentCopy {
    pub vaddr: usize,
    pub offset: usize,
    pub len: usize,
}

/// The bytes of the first `n` segments, each at the segment's address.
pub open spec fn copies(segments: Seq<LoadSegment>, n: int) -> Seq<SegmentCopy> {
    Seq::new(
        n as nat,
        |i: int|
            SegmentCopy {
                vaddr: segments[i].vaddr,
                offset: segments[i].offset,
                len: segments[i].filesz,
            },
    )
}

/// Writes the bytes of the segments, one after the other; `written` is what writing each
/// of them gave. Then the image is known to reach `image_end`, at least: how far it reaches,
/// and what was written.
pub fn write_elf_segments(
    segments: &Vec<LoadSegment>,
    file_len: usize,
    written: &Vec<Result<(), SpaceError>>,
    known_end: usize,
    image_end: usize,
) -> (r: Result<(usize, Vec<SegmentCopy>), SpaceError>)
    requires
        written@.len() == segments@.len(),
    ensures
        match (r, first_fault(segments@, file_len as int, written@, 0)) {
            (Err(error), Some(fault)) => error == fault,
            (Ok((end, list)), None) => {
                &&& end == if known_end < image_end {
                    image_end
                } else {
                    known_end
                }
                &&& list@ == copies(segments@, segments@.len() as int)
            },
            _ => false,
        },
{
    let mut list: Vec<SegmentCopy> = Vec::new();
    let mut index: usize = 0;
    while index < segments.len()
        invariant
            written@.len() == segments@.len(),
            index <= segments@.len(),
            first_fault(segments@, file_len as int, written@, 0) == first_fault(
                segments@,
                file_len as int,
                written@,
                index as int,
            ),
            list@ =~= copies(segments@, index as int),
        decreases segments@.len() - index,
    {
        let segment = segments[index];
        let (start, end) = match segment_source(segment, file_len) {
            Err(error) => {
                return Err(error);
            },
            Ok(source) => source,
        };
        list.push(SegmentCopy { vaddr: segment.vaddr, offset: start, len: end - start });
        match written[index] {
            Err(error) => {
                return Err(error);
            },
            Ok(_) => {},
        }
        index = index + 1;
    }
    if known_end < image_end {
        Ok((image_end, list))
    } else {
        Ok((known_end, list))
    }
}

/// What a segment needs of a page is what the page allows, and no page of the image is
/// both written and executed.
pub proof fn image_is_never_both(segments: Seq<LoadSegment>, top: int, p: int)
    requires
        loadable(segments, top),
        needs(segments, p) is Some,
    ensures
        ({
            let n = needs(segments, p)->0;
            &&& n.write ==> protection_for(n) == Protection::ReadWrite
            &&& n.execute ==> protection_for(n) == Protection::ReadExecute
            &&& !(n.write && n.execute)
        }),
{
}

/// Something of the segment lies on page `p`: it begins before the page ends, and ends behind
/// where the page begins.
pub open spec fn lies_on(segment: LoadSegment, p: int) -> bool {
    segment.vaddr < (p + 1) * PAGE_SIZE && p * PAGE_SIZE < segment.vaddr + segment.memsz
}

/// What is planned for a page says what lies on it: the page is planned exactly if a segment
/// lies on it, and has to allow exactly what some segment that lies on it needs.
pub proof fn needs_tell_of_the_segments(segments: Seq<LoadSegment>, p: int)
    requires
        p >= 0,
    ensures
        needs(segments, p) is Some <==> exists|k: int|
            0 <= k < segments.len() && lies_on(#[trigger] segments[k], p),
        needs(segments, p) matches Some(n) ==> {
            &&& n.read <==> exists|k: int|
                0 <= k < segments.len() && lies_on(#[trigger] segments[k], p)
                    && segments[k].readable
            &&& n.write <==> exists|k: int|
                0 <= k < segments.len() && lies_on(#[trigger] segments[k], p)
                    && segments[k].writable
            &&& n.execute <==> exists|k: int|
                0 <= k < segments.len() && lies_on(#[trigger] segments[k], p)
                    && segments[k].executable
        },
    decreases segments.len(),
{
    if segments.len() > 0 {
        let rest = segments.drop_last();
        let n = rest.len() as int;
        needs_tell_of_the_segments(rest, p);
        assert(segments[n] == segments.last());
        assert(segments.last().covers(p) <==> lies_on(segments.last(), p));
        assert forall|k: int| 0 <= k < n implies rest[k] == #[trigger] segments[k] by {}
        assert forall|k: int| 0 <= k < n implies #[trigger] rest[k] == segments[k] by {}
    }
}

/// Every byte of every segment is mapped, in a run of pages that allows what its segment
/// needs.
pub proof fn every_byte_is_mapped(
    segments: Seq<LoadSegment>,
    top: int,
    runs: Seq<PageRun>,
    k: int,
    a: int,
)
    requires
        loadable(segments, top),
        runs_of(segments, runs),
        0 <= k < segments.len(),
        segments[k].vaddr <= a < segments[k].vaddr + segments[k].memsz,
    ensures
        exists|i: int|
            {
                &&& 0 <= i < runs.len()
                &&& (#[trigger] runs[i]).start * PAGE_SIZE <= a < runs[i].end * PAGE_SIZE
                &&& segments[k].writable ==> runs[i].protection == Protection::ReadWrite
                &&& segments[k].executable ==> runs[i].protection == Protection::ReadExecute
            },
{
    let p = a / PAGE_SIZE as int;
    assert(p * PAGE_SIZE <= a < (p + 1) * PAGE_SIZE);
    needs_tell_of_the_segments(segments, p);
    assert(lies_on(segments[k], p));
    let n = needs(segments, p)->0;
    assert(allowable(n));
    let i = choose|i: int| in_run(runs, i, p);
    assert(runs[i].start <= p < runs[i].end);
    assert(protection_for(n) == runs[i].protection);
    assert(runs[i].start * PAGE_SIZE <= p * PAGE_SIZE && (p + 1) * PAGE_SIZE <= runs[i].end
        * PAGE_SIZE);
}

/// Nothing is mapped that no segment asks for: a segment lies on every page of a run, and a run
/// can be written or executed only if a segment on that page can.
pub proof fn nothing_else_is_mapped(
    segments: Seq<LoadSegment>,
    top: int,
    runs: Seq<PageRun>,
    i: int,
    p: int,
)
    requires
        loadable(segments, top),
        runs_of(segments, runs),
        0 <= i < runs.len(),
        runs[i].start <= p < runs[i].end,
    ensures
        exists|k: int| 0 <= k < segments.len() && lies_on(#[trigger] segments[k], p),
        runs[i].protection == Protection::ReadWrite ==> exists|k: int|
            0 <= k < segments.len() && lies_on(#[trigger] segments[k], p) && segments[k].writable,
        runs[i].protection == Protection::ReadExecute ==> exists|k: int|
            0 <= k < segments.len() && lies_on(#[trigger] segments[k], p)
                && segments[k].executable,
        forall|j: int|
            0 <= j < runs.len() && (#[trigger] runs[j]).start <= p < runs[j].end ==> j == i,
{
    needs_tell_of_the_segments(segments, p);
    assert(needs(segments, p) is Some);
    assert forall|j: int|
        0 <= j < runs.len() && (#[trigger] runs[j]).start <= p < runs[j].end implies j == i by {
        if j < i {
            assert(runs[j].end <= runs[i].start);
        } else if i < j {
            assert(runs[i].end <= runs[j].start);
        }
    }
}

/// Which images are refused: an image is laid out exactly if every segment has room in memory
/// for what the file holds of it, stands at the same place within a page as in the file and
/// ends below `top`, and no page is asked to be written and executed, or to be written or
/// executed without being read.
pub proof fn images_that_are_refused(segments: Seq<LoadSegment>, top: int)
    ensures
        loadable(segments, top) <==> {
            &&& forall|k: int|
                0 <= k < segments.len() ==> (#[trigger] segments[k]).filesz <= segments[k].memsz
                    && (segments[k].vaddr - segments[k].offset) % PAGE_SIZE as int == 0
                    && segments[k].vaddr + segments[k].memsz <= top
            &&& forall|p: int, a: int, b: int|
                0 <= p && 0 <= a < segments.len() && 0 <= b < segments.len() && #[trigger] lies_on(
                    segments[a],
                    p,
                ) && #[trigger] lies_on(segments[b], p) ==> !(segments[a].writable
                    && segments[b].executable)
            &&& forall|p: int, a: int|
                0 <= p && 0 <= a < segments.len() && #[trigger] lies_on(segments[a], p) && (
                segments[a].writable || segments[a].executable) ==> read_on(segments, p)
        },
{
    assert forall|k: int| 0 <= k < segments.len() implies ((#[trigger] segments[k]).ok(top) <==> {
        &&& segments[k].filesz <= segments[k].memsz
        &&& (segments[k].vaddr - segments[k].offset) % PAGE_SIZE as int == 0
        &&& segments[k].vaddr + segments[k].memsz <= top
    }) by {}
    if loadable(segments, top) {
        assert forall|p: int, a: int, b: int|
            0 <= p && 0 <= a < segments.len() && 0 <= b < segments.len() && #[trigger] lies_on(
                segments[a],
                p,
            ) && #[trigger] lies_on(segments[b], p) implies !(segments[a].writable
            && segments[b].executable) by {
            needs_tell_of_the_segments(segments, p);
            assert(allowable(needs(segments, p)->0));
        }
        assert forall|p: int, a: int|
            0 <= p && 0 <= a < segments.len() && #[trigger] lies_on(segments[a], p) && (
            segments[a].writable || segments[a].executable) implies read_on(segments, p) by {
            needs_tell_of_the_segments(segments, p);
            assert(allowable(needs(segments, p)->0));
        }
    }
    if (forall|p: int, a: int, b: int|
        0 <= p && 0 <= a < segments.len() && 0 <= b < segments.len() && #[trigger] lies_on(
            segments[a],
            p,
        ) && #[trigger] lies_on(segments[b], p) ==> !(segments[a].writable
            && segments[b].executable)) && (forall|p: int, a: int|
        0 <= p && 0 <= a < segments.len() && #[trigger] lies_on(segments[a], p) && (
        segments[a].writable || segments[a].executable) ==> read_on(segments, p)) {
        assert forall|p: int| #[trigger] needs(segments, p) is Some implies allowable(
            needs(segments, p)->0,
        ) by {
            planned_pages_are_real(segments, p);
            needs_tell_of_the_segments(segments, p);
            let n = needs(segments, p)->0;
            if n.write {
                let a = choose|a: int|
                    0 <= a < segments.len() && lies_on(#[trigger] segments[a], p)
                        && segments[a].writable;
                assert(lies_on(segments[a], p));
            }
            if n.execute {
                let b = choose|b: int|
                    0 <= b < segments.len() && lies_on(#[trigger] segments[b], p)
                        && segments[b].executable;
                assert(lies_on(segments[b], p));
            }
        }
    }
}

/// A segment that lies on the page is read.
pub open spec fn read_on(segments: Seq<LoadSegment>, p: int) -> bool {
    exists|k: int|
        0 <= k < segments.len() && lies_on(#[trigger] segments[k], p) && segments[k].readable
}

proof fn planned_pages_are_real(segments: Seq<LoadSegment>, p: int)
    requires
        needs(segments, p) is Some,
    ensures
        p >= 0,
    decreases segments.len(),
{
    if !segments.last().covers(p) {
        planned_pages_are_real(segments.drop_last(), p);
    }
}

/// The image ends behind every segment, where the last of them does.
pub proof fn reach_is_the_furthest_end(segments: Seq<LoadSegment>)
    ensures
        forall|k: int|
            0 <= k < segments.len() ==> (#[trigger] segments[k]).vaddr + segments[k].memsz
                <= reach(segments),
        reach(segments) == 0 || exists|k: int|
            0 <= k < segments.len() && (#[trigger] segments[k]).vaddr + segments[k].memsz
                == reach(segments),
    decreases segments.len(),
{
    if segments.len() > 0 {
        let rest = segments.drop_last();
        let n = rest.len() as int;
        reach_is_the_furthest_end(rest);
        assert forall|k: int|
            0 <= k < segments.len() implies (#[trigger] segments[k]).vaddr + segments[k].memsz
                <= reach(segments) by {
            if k < n {
                assert(rest[k] == segments[k]);
            }
        }
        if reach(segments) != 0 {
            if reach(rest) < segments.last().end() {
                assert(segments[n].vaddr + segments[n].memsz == reach(segments));
            } else {
                let k = choose|k: int|
                    0 <= k < rest.len() && (#[trigger] rest[k]).vaddr + rest[k].memsz == reach(
                        rest,
                    );
                assert(segments[k].vaddr + segments[k].memsz == reach(segments));
            }
        }
    }
}

/// Rounding up gives the least whole page that is no less.
pub proof fn rounding_up_is_least(address: int)
    ensures
        page_up(address) % PAGE_SIZE as int == 0,
        address <= page_up(address) < address + PAGE_SIZE,
{
}

/// Writing an image fails exactly if some segment's bytes are not all in the file or could not
/// be written, and the first such segment says why.
pub proof fn first_fault_decides(
    segments: Seq<LoadSegment>,
    file_len: int,
    written: Seq<Result<(), SpaceError>>,
    from: int,
)
    requires
        0 <= from <= segments.len(),
        written.len() == segments.len(),
    ensures
        match first_fault(segments, file_len, written, from) {
            None => forall|k: int|
                from <= k < segments.len() ==> (#[trigger] segments[k]).offset + segments[k].filesz
                    <= file_len && written[k] is Ok,
            Some(error) => exists|k: int|
                {
                    &&& from <= k < segments.len()
                    &&& (#[trigger] segments[k]).offset + segments[k].filesz > file_len ==> error
                        == SpaceError::BadSegment
                    &&& segments[k].offset + segments[k].filesz <= file_len ==> written[k] == Err::<
                        (),
                        _,
                    >(error)
                    &&& forall|j: int|
                        from <= j < k ==> (#[trigger] segments[j]).offset + segments[j].filesz
                            <= file_len && written[j] is Ok
                },
        },
    decreases segments.len() - from,
{
    if from < segments.len() {
        if segment_fault(segments[from], file_len, written[from]) is None {
            first_fault_decides(segments, file_len, written, from + 1);
            if first_fault(segments, file_len, written, from) is Some {
                let error = first_fault(segments, file_len, written, from)->0;
                let k = choose|k: int|
                    {
                        &&& from + 1 <= k < segments.len()
                        &&& (#[trigger] segments[k]).offset + segments[k].filesz > file_len
                            ==> error == SpaceError::BadSegment
                        &&& segments[k].offset + segments[k].filesz <= file_len ==> written[k]
                            == Err::<(), _>(error)
                        &&& forall|j: int|
                            from + 1 <= j < k ==> (#[trigger] segments[j]).offset
                                + segments[j].filesz <= file_len && written[j] is Ok
                    };
                assert(segments[k].filesz >= 0);
            }
        } else {
            assert(segments[from].filesz >= 0);
        }
    }
}

/// Every byte that the file holds of a segment goes where the segment has it: byte `b` of the
/// segment is read `b` bytes behind its place in the file and written `b` bytes behind its
/// address, and of each segment just as many bytes are copied as the file holds.
pub proof fn bytes_go_to_their_segments(segments: Seq<LoadSegment>, n: int, k: int, b: int)
    requires
        0 <= k < n <= segments.len(),
        0 <= b < segments[k].filesz,
    ensures
        ({
            let copy = copies(segments, n)[k];
            &&& copies(segments, n).len() == n
            &&& copy.len == segments[k].filesz
            &&& copy.vaddr + b == segments[k].vaddr + b
            &&& copy.offset + b == segments[k].offset + b
            &&& segments[k].filesz <= segments[k].memsz ==> segments[k].vaddr <= copy.vaddr + b
                < segments[k].vaddr + segments[k].memsz
        }),
{
}

} // verus!
