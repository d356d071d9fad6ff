//! Permits to write for the parts into which a change cuts views of memory objects.
use vstd::prelude::*;

use crate::error::SystemCallError;
use crate::memory_object;
use crate::memory_object::{CoreView, MemoryObjectCore, ObjectError};

verus! {

/// How many permits an object has to hand out.
#[derive(Clone, Copy, Debug, PartialEq, Eq, Structural)]
pub struct PermitRequirement {
    /// Which object.
    pub source: usize,
    pub count: usize,
}

/// The objects as values.
pub open spec fn states(cores: Seq<MemoryObjectCore>) -> Seq<CoreView> {
    cores.map_values(|c: MemoryObjectCore| c@)
}

/// What becomes of the objects when one requirement is met.
pub open spec fn granted(cores: Seq<CoreView>, requirement: PermitRequirement) -> Result<
    Seq<CoreView>,
    ObjectError,
> {
    let core = cores[requirement.source as int];
    if !(core.state is Mutable) {
        Err(ObjectError::PermitDenied)
    } else if requirement.count > core.permit_limit - core.permits {
        Err(ObjectError::PermitLimit)
    } else {
        Ok(
            cores.update(
                requirement.source as int,
                CoreView { permits: (core.permits + requirement.count) as usize, ..core },
            ),
        )
    }
}

/// What becomes of the objects when the first `n` requirements are met one after the
/// other; the first refusal decides.
pub open spec fn outcome(cores: Seq<CoreView>, requirements: Seq<PermitRequirement>, n: int) -> Result<
    Seq<CoreView>,
    ObjectError,
>
    decreases n,
{
    if n <= 0 {
        Ok(cores)
    } else {
        match outcome(cores, requirements, n - 1) {
            Err(error) => Err(error),
            Ok(sofar) => granted(sofar, requirements[n - 1]),
        }
    }
}

/// How many permits are asked for.
pub open spec fn total(requirements: Seq<PermitRequirement>) -> int
    decreases requirements.len(),
{
    if requirements.len() == 0 {
        0
    } else {
        total(requirements.drop_last()) + requirements.last().count
    }
}

/// A refusal at some point is a refusal at the end.
proof fn refusal_stays(cores: Seq<CoreView>, requirements: Seq<PermitRequirement>, n: int, m: int)
    requires
        0 <= n <= m,
        outcome(cores, requirements, n) is Err,
    ensures
        outcome(cores, requirements, m) == outcome(cores, requirements, n),
    decreases m - n,
{
    if n < m {
        refusal_stays(cores, requirements, n, m - 1);
    }
}

/// Meeting requirements adds no object and drops none.
pub proof fn outcome_keeps_length(cores: Seq<CoreView>, requirements: Seq<PermitRequirement>, n: int)
    requires
        0 <= n <= requirements.len(),
        forall|i: int|
            0 <= i < requirements.len() ==> (#[trigger] requirements[i]).source < cores.len(),
        outcome(cores, requirements, n) is Ok,
    ensures
        outcome(cores, requirements, n)->Ok_0.len() == cores.len(),
        n > 0 ==> outcome(cores, requirements, n - 1) is Ok,
    decreases n,
{
    if n > 0 {
        outcome_keeps_length(cores, requirements, n - 1);
        assert(requirements[n - 1].source < cores.len());
    }
}

/// The totals of longer beginnings are no smaller.
proof fn total_grows(requirements: Seq<PermitRequirement>, n: int)
    requires
        0 <= n < requirements.len(),
    ensures
        total(requirements.take(n + 1)) == total(requirements.take(n)) + requirements[n].count,
        total(requirements.take(n + 1)) <= total(requirements),
    decreases requirements.len() - n,
{
    assert(requirements.take(n + 1).drop_last() =~= requirements.take(n));
    if n + 1 < requirements.len() {
        total_grows(requirements, n + 1);
    } else {
        assert(requirements.take(n + 1) =~= requirements);
    }
}

/// How many permits are asked for; `None` if that cannot be told.
fn checked_total(requirements: &Vec<PermitRequirement>) -> (r: Option<usize>)
    ensures
        r is Some <==> total(requirements@) <= usize::MAX,
        r matches Some(sum) ==> sum == total(requirements@),
{
    let mut sum: usize = 0;
    let mut index: usize = 0;
    assert(requirements@.take(0) =~= Seq::empty());
    while index < requirements.len()
        invariant
            index <= requirements@.len(),
            sum == total(requirements@.take(index as int)),
        decreases requirements@.len() - index,
    {
        proof {
            total_grows(requirements@, index as int);
        }
        match sum.checked_add(requirements[index].count) {
            None => {
                return None;
            },
            Some(next) => {
                sum = next;
            },
        }
        index = index + 1;
    }
    assert(requirements@.take(index as int) =~= requirements@);
    Some(sum)
}

/// Takes back what the first `n` requirements were given.
fn give_back(
    cores: &mut Vec<MemoryObjectCore>,
    requirements: &Vec<PermitRequirement>,
    n: usize,
    Ghost(before): Ghost<Seq<CoreView>>,
)
    requires
        n <= requirements@.len(),
        forall|i: int| 0 <= i < old(cores)@.len() ==> (#[trigger] old(cores)@[i]).wf(),
        forall|i: int|
            0 <= i < requirements@.len() ==> (#[trigger] requirements@[i]).source < before.len(),
        outcome(before, requirements@, n as int) == Ok::<Seq<CoreView>, ObjectError>(
            states(old(cores)@),
        ),
    ensures
        forall|i: int| 0 <= i < final(cores)@.len() ==> (#[trigger] final(cores)@[i]).wf(),
        states(final(cores)@) == before,
{
    let mut left: usize = n;
    while left > 0
        invariant
            left <= n <= requirements@.len(),
            forall|i: int| 0 <= i < cores@.len() ==> (#[trigger] cores@[i]).wf(),
            forall|i: int|
                0 <= i < requirements@.len() ==> (#[trigger] requirements@[i]).source
                    < before.len(),
            outcome(before, requirements@, left as int) == Ok::<Seq<CoreView>, ObjectError>(
                states(cores@),
            ),
        decreases left,
    {
        let requirement = requirements[left - 1];
        let ghost now = cores@;
        proof {
            outcome_keeps_length(before, requirements@, left as int);
            outcome_keeps_length(before, requirements@, left - 1);
            assert(requirements@[left - 1].source < before.len());
            assert(states(now)[requirement.source as int] == now[requirement.source as int]@);
        }
        cores[requirement.source].cancel_writes(requirement.count);
        proof {
            let sofar = outcome(before, requirements@, left - 1)->Ok_0;
            let at = requirement.source as int;
            assert(states(cores@) =~= states(now).update(at, cores@[at]@));
            assert(states(now) == sofar.update(
                at,
                CoreView { permits: (sofar[at].permits + requirement.count) as usize, ..sofar[at] },
            ));
            assert(cores@[at]@ =~= sofar[at]);
            assert(states(cores@) =~= sofar);
        }
        left = left - 1;
    }
}

/// What was given tells what was there before.
proof fn outcome_tells_before(
    one: Seq<CoreView>,
    other: Seq<CoreView>,
    requirements: Seq<PermitRequirement>,
    n: int,
)
    requires
        0 <= n <= requirements.len(),
        one.len() == other.len(),
        forall|i: int|
            0 <= i < requirements.len() ==> (#[trigger] requirements[i]).source < one.len(),
        outcome(one, requirements, n) is Ok,
        outcome(one, requirements, n) == outcome(other, requirements, n),
    ensures
        one == other,
    decreases n,
{
    if n > 0 {
        outcome_keeps_length(one, requirements, n);
        outcome_keeps_length(other, requirements, n);
        outcome_keeps_length(one, requirements, n - 1);
        outcome_keeps_length(other, requirements, n - 1);
        let a = outcome(one, requirements, n - 1)->Ok_0;
        let b = outcome(other, requirements, n - 1)->Ok_0;
        let at = requirements[n - 1].source as int;
        assert(at < one.len());
        let done = outcome(one, requirements, n)->Ok_0;
        assert(done[at].permits == a[at].permits + requirements[n - 1].count);
        assert(done[at].permits == b[at].permits + requirements[n - 1].count);
        assert(a[at] =~= b[at]);
        assert forall|i: int| 0 <= i < a.len() implies a[i] == b[i] by {
            if i != at {
                assert(done[i] == a[i] && done[i] == b[i]);
            }
        }
        assert(a =~= b);
        outcome_tells_before(one, other, requirements, n - 1);
    }
}

/// The objects would be `given` if, from `before`, all requirements were met.
pub open spec fn acquired(
    before: Seq<CoreView>,
    requirements: Seq<PermitRequirement>,
    given: Seq<CoreView>,
) -> bool {
    before.len() == given.len() && outcome(before, requirements, requirements.len() as int) == Ok::<
        Seq<CoreView>,
        ObjectError,
    >(given)
}

/// Gives permits back that were acquired for a change that does not take place: every
/// object is as before they were acquired.
pub fn release_view_permits(
    cores: &mut Vec<MemoryObjectCore>,
    requirements: &Vec<PermitRequirement>,
)
    requires
        forall|i: int| 0 <= i < old(cores)@.len() ==> (#[trigger] old(cores)@[i]).wf(),
        forall|i: int|
            0 <= i < requirements@.len() ==> (#[trigger] requirements@[i]).source < old(
                cores,
            )@.len(),
        exists|before: Seq<CoreView>| #[trigger]
            acquired(before, requirements@, states(old(cores)@)),
    ensures
        forall|i: int| 0 <= i < final(cores)@.len() ==> (#[trigger] final(cores)@[i]).wf(),
        forall|before: Seq<CoreView>| #[trigger]
            acquired(before, requirements@, states(old(cores)@)) ==> states(final(cores)@)
                == before,
{
    let ghost start = states(cores@);
    let ghost before = choose|before: Seq<CoreView>| #[trigger]
        acquired(before, requirements@, start);
    give_back(cores, requirements, requirements.len(), Ghost(before));
    proof {
        assert forall|other: Seq<CoreView>| #[trigger] acquired(
            other,
            requirements@,
            start,
        ) implies states(cores@) == other by {
            outcome_tells_before(before, other, requirements@, requirements@.len() as int);
        }
    }
}

/// Asks every object for the permits that are needed of it, all or none: on a refusal
/// every object is as it was. `room` says whether the permits can be listed.
pub fn acquire_view_permits(
    cores: &mut Vec<MemoryObjectCore>,
    requirements: &Vec<PermitRequirement>,
    room: bool,
) -> (r: Result<usize, SystemCallError>)
    requires
        forall|i: int| 0 <= i < old(cores)@.len() ==> (#[trigger] old(cores)@[i]).wf(),
        forall|i: int|
            0 <= i < requirements@.len() ==> (#[trigger] requirements@[i]).source < old(
                cores,
            )@.len(),
    ensures
        forall|i: int| 0 <= i < final(cores)@.len() ==> (#[trigger] final(cores)@[i]).wf(),
        ({
            let all = outcome(states(old(cores)@), requirements@, requirements@.len() as int);
            r == if requirements@.len() == 0 {
                Ok::<usize, SystemCallError>(0)
            } else if total(requirements@) > usize::MAX {
                Err(SystemCallError::InternalError)
            } else if !room {
                Err(SystemCallError::OutOfMemory)
            } else if all is Err {
                Err(memory_object::object_reported(all->Err_0))
            } else {
                Ok(total(requirements@) as usize)
            }
        }),
        states(final(cores)@) == if r is Ok {
            outcome(states(old(cores)@), requirements@, requirements@.len() as int)->Ok_0
        } else {
            states(old(cores)@)
        },
{
    if requirements.len() == 0 {
        return Ok(0);
    }
    let sum: usize = match checked_total(requirements) {
        None => {
            return Err(SystemCallError::InternalError);
        },
        Some(sum) => sum,
    };
    if !room {
        return Err(SystemCallError::OutOfMemory);
    }
    let ghost before = states(cores@);
    let mut index: usize = 0;
    while index < requirements.len()
        invariant
            room,
            requirements@.len() > 0,
            sum == total(requirements@),
            index <= requirements@.len(),
            before == states(old(cores)@),
            forall|i: int| 0 <= i < cores@.len() ==> (#[trigger] cores@[i]).wf(),
            forall|i: int|
                0 <= i < requirements@.len() ==> (#[trigger] requirements@[i]).source
                    < before.len(),
            outcome(before, requirements@, index as int) == Ok::<Seq<CoreView>, ObjectError>(
                states(cores@),
            ),
        decreases requirements@.len() - index,
    {
        let requirement = requirements[index];
        let ghost now = cores@;
        proof {
            outcome_keeps_length(before, requirements@, index as int);
            assert(requirements@[index as int].source < before.len());
            assert(states(now)[requirement.source as int] == now[requirement.source as int]@);
        }
        let result = cores[requirement.source].reserve_writes(requirement.count);
        proof {
            let at = requirement.source as int;
            assert(states(cores@) =~= states(now).update(at, cores@[at]@));
            if result is Err {
                assert(states(cores@) =~= states(now));
                assert(outcome(before, requirements@, index + 1) is Err);
                refusal_stays(before, requirements@, index + 1, requirements@.len() as int);
            }
        }
        match result {
            Err(error) => {
                give_back(cores, requirements, index, Ghost(before));
                return Err(memory_object::map_object_error(error));
            },
            Ok(_) => {},
        }
        index = index + 1;
    }
    Ok(sum)
}

/// How many permits the first `n` requirements ask of object `c`.
pub open spec fn asked_of(requirements: Seq<PermitRequirement>, n: int, c: int) -> int
    decreases n,
{
    if n <= 0 {
        0
    } else {
        asked_of(requirements, n - 1, c) + if requirements[n - 1].source == c {
            requirements[n - 1].count as int
        } else {
            0
        }
    }
}

/// Every object gets the permits that are asked of it, all of them and no others: its count goes
/// up by what the requirements ask of it, stays within its limit, and nothing else of it changes.
/// An object that is asked for anything is not sealed.
pub proof fn permits_go_where_they_are_asked(
    cores: Seq<CoreView>,
    requirements: Seq<PermitRequirement>,
    n: int,
    c: int,
)
    requires
        0 <= n <= requirements.len(),
        0 <= c < cores.len(),
        forall|i: int|
            0 <= i < requirements.len() ==> (#[trigger] requirements[i]).source < cores.len(),
        forall|i: int|
            0 <= i < cores.len() ==> (#[trigger] cores[i]).permits <= cores[i].permit_limit,
        outcome(cores, requirements, n) is Ok,
    ensures
        ({
            let given = outcome(cores, requirements, n)->Ok_0;
            &&& given.len() == cores.len()
            &&& given[c].permits == cores[c].permits + asked_of(requirements, n, c)
            &&& given[c].permits <= given[c].permit_limit
            &&& (CoreView { permits: cores[c].permits, ..given[c] }) == cores[c]
            &&& (exists|i: int| 0 <= i < n && (#[trigger] requirements[i]).source == c)
                ==> cores[c].state is Mutable
        }),
    decreases n,
{
    if n > 0 {
        outcome_keeps_length(cores, requirements, n);
        outcome_keeps_length(cores, requirements, n - 1);
        permits_go_where_they_are_asked(cores, requirements, n - 1, c);
        permits_go_where_they_are_asked(
            cores,
            requirements,
            n - 1,
            requirements[n - 1].source as int,
        );
    }
}

/// A requirement is refused exactly if its object is sealed, or on its way to be, or has not that
/// many permits left; and the two are told apart.
pub proof fn permits_are_refused(cores: Seq<CoreView>, requirement: PermitRequirement)
    requires
        requirement.source < cores.len(),
    ensures
        ({
            let core = cores[requirement.source as int];
            &&& granted(cores, requirement) is Ok <==> core.state is Mutable && core.permits
                + requirement.count <= core.permit_limit
            &&& !(core.state is Mutable) ==> granted(cores, requirement) == Err::<
                Seq<CoreView>,
                _,
            >(ObjectError::PermitDenied)
            &&& core.state is Mutable && core.permits + requirement.count > core.permit_limit
                ==> granted(cores, requirement) == Err::<Seq<CoreView>, _>(ObjectError::PermitLimit)
        }),
{
}

/// What is asked for altogether is what is asked of the objects one by one.
pub proof fn total_is_the_sum(requirements: Seq<PermitRequirement>, requirement: PermitRequirement)
    ensures
        total(requirements.push(requirement)) == total(requirements) + requirement.count,
        total(Seq::empty()) == 0,
{
    assert(requirements.push(requirement).drop_last() =~= requirements);
}

/// Permits that were acquired are all out: of each object as many more as were asked of it, and no
/// object is lost.
pub proof fn acquired_permits_are_out(
    before: Seq<CoreView>,
    requirements: Seq<PermitRequirement>,
    given: Seq<CoreView>,
    c: int,
)
    requires
        acquired(before, requirements, given),
        0 <= c < before.len(),
        forall|i: int|
            0 <= i < requirements.len() ==> (#[trigger] requirements[i]).source < before.len(),
        forall|i: int|
            0 <= i < before.len() ==> (#[trigger] before[i]).permits <= before[i].permit_limit,
    ensures
        given.len() == before.len(),
        given[c].permits == before[c].permits + asked_of(
            requirements,
            requirements.len() as int,
            c,
        ),
        given[c].state == before[c].state && given[c].identity == before[c].identity
            && given[c].permit_limit == before[c].permit_limit,
{
    permits_go_where_they_are_asked(before, requirements, requirements.len() as int, c);
}

} // verus!
