//! What loading an image and bringing up the first process rest on.
use vstd::prelude::*;

use crate::error::SystemCallError;
use crate::lifecycle::{
    Lifecycle, LifecycleView, MemberEntry, ProcessExitReason, ProcessState,
};
use crate::map_intent::UserSpace;
use crate::memory_pool::FundError;
use crate::process;
use crate::process::PAGE_SIZE;
use crate::space;
use crate::space::SpaceError;

verus! {

/// The first failure, at or after `from`.
pub open spec fn first_unfunded(results: Seq<Result<usize, FundError>>, from: int) -> Option<
    FundError,
>
    decreases results.len() - from,
{
    if from >= results.len() {
        None
    } else {
        match results[from] {
            Err(error) => Some(error),
            Ok(_) => first_unfunded(results, from + 1),
        }
    }
}

/// The table frames that were funded one by one, all or none; `room` says whether they
/// can be listed.
pub fn supply_funded_table_frames(results: &Vec<Result<usize, FundError>>, room: bool) -> (r:
    Result<Vec<usize>, SpaceError>)
    ensures
        match r {
            Err(error) => if room {
                first_unfunded(results@, 0) is Some && error == space::fund_refusal(
                    first_unfunded(results@, 0)->0,
                )
            } else {
                error == SpaceError::NoFrame
            },
            Ok(frames) => {
                &&& room
                &&& first_unfunded(results@, 0) is None
                &&& frames@.len() == results@.len()
                &&& forall|i: int|
                    0 <= i < frames@.len() ==> results@[i] == Ok::<usize, FundError>(
                        #[trigger] frames@[i],
                    )
            },
        },
{
    if !room {
        return Err(SpaceError::NoFrame);
    }
    let mut frames: Vec<usize> = Vec::new();
    let mut index: usize = 0;
    while index < results.len()
        invariant
            room,
            index <= results@.len(),
            frames@.len() == index,
            first_unfunded(results@, 0) == first_unfunded(results@, index as int),
            forall|i: int|
                0 <= i < index ==> results@[i] == Ok::<usize, FundError>(#[trigger] frames@[i]),
        decreases results@.len() - index,
    {
        match results[index] {
            Err(error) => {
                return Err(space::map_funded_error(error));
            },
            Ok(frame) => {
                frames.push(frame);
            },
        }
        index = index + 1;
    }
    Ok(frames)
}

/// Where the block that a first thread is given goes: behind the image.
#[derive(Clone, Copy, Debug, PartialEq, Eq, Structural)]
pub struct BlockGeometry {
    pub base: usize,
    pub prefix_pages: usize,
    /// With the payload.
    pub pages: usize,
    pub end: usize,
}

/// How many pages `bytes` bytes take.
pub open spec fn pages_for(bytes: int) -> int {
    (bytes + (PAGE_SIZE - 1)) / PAGE_SIZE as int
}

/// Where the block goes, as [`bootstrap_block`] says.
pub open spec fn block_geometry(
    user: UserSpace,
    image_end: usize,
    prefix_len: usize,
    payload_pages: usize,
    payload_len: usize,
) -> Result<BlockGeometry, SpaceError> {
    let prefix_pages = prefix_len as int / PAGE_SIZE as int;
    let pages = prefix_pages + payload_pages;
    if prefix_len == 0 || prefix_len % PAGE_SIZE != 0 || image_end == 0 || payload_pages
        != pages_for(payload_len as int) || image_end + pages * PAGE_SIZE
        > user.spec_stack_base() {
        Err(SpaceError::BadSegment)
    } else {
        Ok(
            BlockGeometry {
                base: image_end,
                prefix_pages: prefix_pages as usize,
                pages: pages as usize,
                end: (image_end + pages * PAGE_SIZE) as usize,
            },
        )
    }
}

/// Where a block of `prefix_len` bytes, followed by a payload of `payload_len` bytes in
/// `payload_pages` pages, goes. The prefix takes whole pages, the payload exactly as many
/// as it needs, and the block ends below the stack.
pub fn bootstrap_block(
    user: UserSpace,
    image_end: usize,
    prefix_len: usize,
    payload_pages: usize,
    payload_len: usize,
) -> (r: Result<BlockGeometry, SpaceError>)
    requires
        user.wf(),
    ensures
        r == block_geometry(user, image_end, prefix_len, payload_pages, payload_len),
{
    if prefix_len == 0 || prefix_len % PAGE_SIZE != 0 || image_end == 0 {
        return Err(SpaceError::BadSegment);
    }
    let whole: usize = payload_len / PAGE_SIZE;
    let needed: usize = if payload_len % PAGE_SIZE == 0 {
        whole
    } else {
        whole + 1
    };
    if payload_pages != needed {
        return Err(SpaceError::BadSegment);
    }
    let prefix_pages: usize = prefix_len / PAGE_SIZE;
    let pages: usize = match prefix_pages.checked_add(payload_pages) {
        None => {
            return Err(SpaceError::BadSegment);
        },
        Some(pages) => pages,
    };
    let span: usize = match pages.checked_mul(PAGE_SIZE) {
        None => {
            return Err(SpaceError::BadSegment);
        },
        Some(span) => span,
    };
    let end: usize = match image_end.checked_add(span) {
        None => {
            return Err(SpaceError::BadSegment);
        },
        Some(end) => end,
    };
    if end > user.stack_base() {
        return Err(SpaceError::BadSegment);
    }
    Ok(BlockGeometry { base: image_end, prefix_pages, pages, end })
}

/// What a failure to bind memory means for whoever loads an image.
pub open spec fn unbound_refusal(error: SystemCallError) -> SpaceError {
    match error {
        SystemCallError::QuotaExceeded => SpaceError::QuotaExceeded,
        SystemCallError::ReachLimit => SpaceError::ReachLimit,
        _ => SpaceError::NoFrame,
    }
}

/// What a failure to bind memory means for whoever loads an image.
pub fn bind_refusal(error: SystemCallError) -> (r: SpaceError)
    ensures
        r == unbound_refusal(error),
{
    match error {
        SystemCallError::QuotaExceeded => SpaceError::QuotaExceeded,
        SystemCallError::ReachLimit => SpaceError::ReachLimit,
        _ => SpaceError::NoFrame,
    }
}

/// Gives up a process that was bound to memory but never published: it is ended, and its
/// threads, none of which ever ran, are handed out to be dropped. What is left can be
/// drained.
pub fn rollback_unpublished(lifecycle: &mut Lifecycle) -> (r: Vec<u64>)
    requires
        old(lifecycle).wf(),
        old(lifecycle)@.state is Building,
        old(lifecycle)@.execution_sequence < u64::MAX,
    ensures
        final(lifecycle).wf(),
        r@ == process::never_ran(old(lifecycle)@.members),
        final(lifecycle)@ == (LifecycleView {
            state: ProcessState::Terminating,
            reason: ProcessExitReason::Killed,
            code: 0,
            members: process::ran(old(lifecycle)@.members),
            ..old(lifecycle)@.advanced()
        }),
{
    let todo = lifecycle.request_termination(ProcessExitReason::Killed, 0, None);
    let rest = process::run_termination_todo(lifecycle, todo);
    rest.dropped
}

/// A process that is built has no thread that ever ran, so that giving it up leaves none.
pub proof fn nothing_ran_while_built(state: LifecycleView)
    requires
        state.wf(),
        state.state is Building,
    ensures
        process::ran(state.members).len() == 0,
        process::never_ran(state.members).len() == state.members.len(),
{
    all_never_ran(state.members);
}

/// Threads that all wait for the start never ran.
proof fn all_never_ran(members: Seq<MemberEntry>)
    requires
        forall|i: int| 0 <= i < members.len() ==> (#[trigger] members[i]).state is Staging,
    ensures
        process::ran(members).len() == 0,
        process::never_ran(members).len() == members.len(),
    decreases members.len(),
{
    if members.len() > 0 {
        assert(members[0].state is Staging);
        let rest = members.drop_first();
        assert forall|i: int| 0 <= i < rest.len() implies (#[trigger] rest[i]).state is Staging by {
            assert(members[i + 1].state is Staging);
        }
        all_never_ran(rest);
    }
}

/// The first failure is the one that counts; without a failure there is none.
pub proof fn first_failure_counts(results: Seq<Result<usize, FundError>>, from: int)
    requires
        0 <= from,
    ensures
        match first_unfunded(results, from) {
            Some(error) => exists|i: int|
                {
                    &&& from <= i < results.len()
                    &&& (#[trigger] results[i]) == Err::<usize, _>(error)
                    &&& forall|j: int| from <= j < i ==> (#[trigger] results[j]) is Ok
                },
            None => forall|j: int| from <= j < results.len() ==> (#[trigger] results[j]) is Ok,
        },
    decreases results.len() - from,
{
    if from < results.len() {
        first_failure_counts(results, from + 1);
        if results[from] is Ok && first_unfunded(results, from + 1) is Some {
            let error = first_unfunded(results, from + 1)->0;
            let i = choose|i: int|
                {
                    &&& from + 1 <= i < results.len()
                    &&& (#[trigger] results[i]) == Err::<usize, _>(error)
                    &&& forall|j: int| from + 1 <= j < i ==> (#[trigger] results[j]) is Ok
                };
            assert(results[i] == Err::<usize, _>(error));
        } else if results[from] is Err {
            assert(results[from] == Err::<usize, _>(first_unfunded(results, from)->0));
        }
    }
}

/// The least number of pages that hold the bytes.
pub proof fn pages_just_hold_the_bytes(bytes: int)
    requires
        bytes >= 0,
    ensures
        bytes <= pages_for(bytes) * 4096 < bytes + 4096,
{
}

/// Where the block goes: right behind the image, first the prefix and then the payload, on just as
/// many pages as they take, and clear of the stack. It is refused exactly if the prefix is empty
/// or no whole pages, the image is, the payload was cut into another number of pages, or there is
/// no room below the stack.
pub proof fn block_lies_between_image_and_stack(
    user: UserSpace,
    image_end: usize,
    prefix_len: usize,
    payload_pages: usize,
    payload_len: usize,
)
    requires
        user.wf(),
    ensures
        ({
            let block = block_geometry(user, image_end, prefix_len, payload_pages, payload_len);
            &&& block matches Ok(at) ==> {
                &&& at.base == image_end
                &&& at.prefix_pages * 4096 == prefix_len
                &&& at.pages == at.prefix_pages + payload_pages
                &&& at.end == at.base + at.pages * 4096
                &&& payload_len <= payload_pages * 4096 < payload_len + 4096
                &&& at.end <= user.top - user.stack_bytes
            }
            &&& block is Ok <==> {
                &&& prefix_len > 0 && prefix_len % 4096 == 0 && image_end > 0
                &&& payload_len <= payload_pages * 4096 < payload_len + 4096
                &&& image_end + prefix_len + payload_pages * 4096 <= user.top - user.stack_bytes
            }
            &&& block matches Err(error) ==> error is BadSegment
        }),
{
}

/// Only the pool's quota and a limit are told as what they are; any other failure to bind memory
/// is want of it.
pub proof fn binding_failures_keep_their_sense(error: SystemCallError)
    ensures
        unbound_refusal(error) is QuotaExceeded <==> error is QuotaExceeded,
        unbound_refusal(error) is ReachLimit <==> error is ReachLimit,
        !(error is QuotaExceeded) && !(error is ReachLimit) ==> unbound_refusal(error) is NoFrame,
{
}

} // verus!
