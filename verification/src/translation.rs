//! What the page table says of user memory, and what may be done there.
use vstd::prelude::*;

use crate::map_intent::UserSpace;
use crate::memory_object::Protection;
use crate::process::PAGE_SIZE;
use crate::space::SpaceError;

verus! {

/// Bits of a page table entry.
pub const VALID: u64 = 0x01;

pub const READ: u64 = 0x02;

pub const WRITE: u64 = 0x04;

pub const EXECUTE: u64 = 0x08;

pub const USER: u64 = 0x10;

pub const ACCESSED: u64 = 0x40;

pub const DIRTY: u64 = 0x80;

/// The entry bits that give exactly this protection to user code.
pub fn protection_flags(protection: Protection) -> (r: u64)
    ensures
        r & (VALID | USER | ACCESSED | READ) == VALID | USER | ACCESSED | READ,
        r & WRITE != 0 <==> protection == Protection::ReadWrite,
        r & DIRTY != 0 <==> protection == Protection::ReadWrite,
        r & EXECUTE != 0 <==> protection == Protection::ReadExecute,
        r & !(VALID | USER | ACCESSED | READ | WRITE | DIRTY | EXECUTE) == 0,
{
    assert({
        let base = 0x01u64 | 0x10 | 0x40 | 0x02;
        let all = base | 0x04 | 0x80 | 0x08;
        &&& base & base == base && base & 0x04 == 0 && base & 0x80 == 0 && base & 0x08 == 0 && base
            & !all == 0
        &&& (base | 0x04 | 0x80) & base == base && (base | 0x04 | 0x80) & 0x04 != 0 && (base | 0x04
            | 0x80) & 0x80 != 0 && (base | 0x04 | 0x80) & 0x08 == 0 && (base | 0x04 | 0x80) & !all
            == 0
        &&& (base | 0x08) & base == base && (base | 0x08) & 0x04 == 0 && (base | 0x08) & 0x80 == 0
            && (base | 0x08) & 0x08 != 0 && (base | 0x08) & !all == 0
    }) by (bit_vector);
    match protection {
        Protection::ReadOnly => VALID | USER | ACCESSED | READ,
        Protection::ReadWrite => VALID | USER | ACCESSED | READ | WRITE | DIRTY,
        Protection::ReadExecute => VALID | USER | ACCESSED | READ | EXECUTE,
    }
}

/// What the page table says of one page.
#[derive(Clone, Copy, Debug, PartialEq, Eq, Structural)]
pub struct PageMapping {
    /// Number of the frame.
    pub ppn: usize,
    pub flags: u64,
}

/// How many pages the bytes from `start` on touch.
pub open spec fn touched(start: int, len: int) -> int {
    if len <= 0 {
        0
    } else {
        (start + len - 1) / PAGE_SIZE as int - start / PAGE_SIZE as int + 1
    }
}

/// Why user memory cannot be accessed.
#[derive(Clone, Copy, Debug, PartialEq, Eq, Structural)]
pub enum AccessError {
    BadRange,
    NotMapped,
    Permission,
}

/// The page admits user access with all of `need`.
pub open spec fn admits(mapping: PageMapping, need: u64) -> bool {
    mapping.flags & USER != 0 && mapping.flags & need != 0
}

/// The first page, at or after `from`, that does not admit user access with `need`; the
/// number of pages if all do.
pub open spec fn first_refusing(pages: Seq<Option<PageMapping>>, need: u64, from: int) -> int
    decreases pages.len() - from,
{
    if from >= pages.len() {
        pages.len() as int
    } else if pages[from] is Some && admits(pages[from]->0, need) {
        first_refusing(pages, need, from + 1)
    } else {
        from
    }
}

/// Whether user code may access `len` bytes at `ptr`, for writing or for reading; `pages`
/// is what the page table says of the pages touched, in order.
pub fn check_range(
    user: UserSpace,
    ptr: usize,
    len: usize,
    writable: bool,
    pages: &Vec<Option<PageMapping>>,
) -> (r: Result<(), AccessError>)
    requires
        ptr + len <= user.top ==> pages@.len() == touched(ptr as int, len as int),
    ensures
        ({
            let need = if writable {
                WRITE
            } else {
                READ
            };
            let first = first_refusing(pages@, need, 0);
            r == if ptr + len > user.top || (ptr >= user.top && len == 0) {
                Err::<(), _>(AccessError::BadRange)
            } else if first == pages@.len() {
                Ok(())
            } else if pages@[first] is None {
                Err(AccessError::NotMapped)
            } else {
                Err(AccessError::Permission)
            }
        }),
{
    let end: usize = match ptr.checked_add(len) {
        None => {
            return Err(AccessError::BadRange);
        },
        Some(end) => end,
    };
    if end > user.top || (ptr >= user.top && len == 0) {
        return Err(AccessError::BadRange);
    }
    let need: u64 = if writable {
        WRITE
    } else {
        READ
    };
    let mut index: usize = 0;
    while index < pages.len()
        invariant
            ptr + len <= user.top,
            !(ptr >= user.top && len == 0),
            need == if writable {
                WRITE
            } else {
                READ
            },
            index <= pages@.len(),
            first_refusing(pages@, need, 0) == first_refusing(pages@, need, index as int),
        decreases pages@.len() - index,
    {
        match pages[index] {
            Some(mapping) => {
                if mapping.flags & USER == 0 || mapping.flags & need == 0 {
                    return Err(AccessError::Permission);
                }
            },
            None => {
                return Err(AccessError::NotMapped);
            },
        }
        index = index + 1;
    }
    Ok(())
}

/// A piece of what is written and the physical address it goes to.
#[derive(Clone, Copy, Debug, PartialEq, Eq, Structural)]
pub struct BuildingChunk {
    /// Where the piece starts in the source.
    pub source: usize,
    pub physical: usize,
    pub bytes: usize,
}

/// Where piece `k` of what is written at `target` begins.
pub open spec fn chunk_start(target: int, k: int) -> int {
    if k <= 0 {
        target
    } else {
        (target / PAGE_SIZE as int + k) * PAGE_SIZE
    }
}

/// Where piece `k` of `len` bytes written at `target` ends.
pub open spec fn chunk_end(target: int, len: int, k: int) -> int {
    let page_end = (target / PAGE_SIZE as int + k + 1) * PAGE_SIZE;
    if page_end < target + len {
        page_end
    } else {
        target + len
    }
}

/// Piece `k` of `len` bytes written at `target`, on the page that `mapping` tells of.
pub open spec fn building_chunk(
    target: int,
    len: int,
    mapping: PageMapping,
    k: int,
) -> BuildingChunk {
    BuildingChunk {
        source: (chunk_start(target, k) - target) as usize,
        physical: (mapping.ppn * PAGE_SIZE + chunk_start(target, k) % PAGE_SIZE as int) as usize,
        bytes: (chunk_end(target, len, k) - chunk_start(target, k)) as usize,
    }
}

/// The page is there and belongs to the user.
pub open spec fn user_page(page: Option<PageMapping>) -> bool {
    page is Some && page->0.flags & USER != 0
}

/// Where the pieces lie within their pages.
proof fn chunks_in_numbers(target: int, len: int, k: int)
    requires
        0 <= target,
        0 < len,
        0 <= k < touched(target, len),
    ensures
        target <= chunk_start(target, k) < chunk_end(target, len, k) <= target + len,
        chunk_start(target, k) % PAGE_SIZE as int == if k == 0 {
            target % PAGE_SIZE as int
        } else {
            0
        },
        chunk_end(target, len, k) == if PAGE_SIZE - (chunk_start(target, k) % (PAGE_SIZE as int))
            < target + len - chunk_start(target, k) {
            chunk_start(target, k) + (PAGE_SIZE - chunk_start(target, k) % PAGE_SIZE as int)
        } else {
            target + len
        },
        k + 1 < touched(target, len) ==> chunk_end(target, len, k) == chunk_start(target, k + 1)
            && chunk_end(target, len, k) < target + len,
        k + 1 == touched(target, len) ==> chunk_end(target, len, k) == target + len,
{
    let page = target / PAGE_SIZE as int;
    let last = (target + len - 1) / PAGE_SIZE as int;
    assert(target == page * PAGE_SIZE + target % PAGE_SIZE as int);
    assert(target + len - 1 == last * PAGE_SIZE + (target + len - 1) % PAGE_SIZE as int);
    if k > 0 {
        assert(chunk_start(target, k) % PAGE_SIZE as int == 0);
    }
}

/// Where `len` bytes go that are written at `target` while the process is built; `pages`
/// is what the page table says of the pages touched, in order. Nothing is written unless
/// every page is there; whether user code may write does not matter.
pub fn write_building(
    user: UserSpace,
    target: usize,
    len: usize,
    pages: &Vec<Option<PageMapping>>,
) -> (r: Result<Vec<BuildingChunk>, SpaceError>)
    requires
        target + len <= user.top ==> pages@.len() == touched(target as int, len as int),
        forall|k: int|
            0 <= k < pages@.len() && (#[trigger] pages@[k]) is Some ==> (pages@[k]->0.ppn + 1)
                * PAGE_SIZE <= usize::MAX,
    ensures
        r is Err <==> target + len > user.top || exists|k: int|
            0 <= k < pages@.len() && !user_page(#[trigger] pages@[k]),
        r matches Err(error) ==> error == SpaceError::BadSegment,
        r matches Ok(chunks) ==> {
            &&& chunks@.len() == pages@.len()
            &&& forall|k: int|
                0 <= k < chunks@.len() ==> (#[trigger] chunks@[k]) == building_chunk(
                    target as int,
                    len as int,
                    pages@[k]->0,
                    k,
                )
        },
{
    let end: usize = match target.checked_add(len) {
        None => {
            return Err(SpaceError::BadSegment);
        },
        Some(end) => end,
    };
    if end > user.top {
        return Err(SpaceError::BadSegment);
    }
    let mut index: usize = 0;
    while index < pages.len()
        invariant
            index <= pages@.len(),
            forall|k: int| 0 <= k < index ==> user_page(#[trigger] pages@[k]),
        decreases pages@.len() - index,
    {
        match pages[index] {
            None => {
                assert(!user_page(pages@[index as int]));
                return Err(SpaceError::BadSegment);
            },
            Some(mapping) => {
                if mapping.flags & USER == 0 {
                    assert(!user_page(pages@[index as int]));
                    return Err(SpaceError::BadSegment);
                }
            },
        }
        index = index + 1;
    }
    let mut chunks: Vec<BuildingChunk> = Vec::new();
    let mut copied: usize = 0;
    let mut page: usize = 0;
    while copied < len
        invariant
            target + len <= usize::MAX,
            pages@.len() == touched(target as int, len as int),
            forall|k: int| 0 <= k < pages@.len() ==> user_page(#[trigger] pages@[k]),
            forall|k: int|
                0 <= k < pages@.len() && (#[trigger] pages@[k]) is Some ==> (pages@[k]->0.ppn + 1)
                    * PAGE_SIZE <= usize::MAX,
            copied <= len,
            page <= pages@.len(),
            copied < len ==> page < pages@.len() && copied == chunk_start(
                target as int,
                page as int,
            ) - target,
            copied == len ==> page == pages@.len(),
            chunks@.len() == page,
            forall|k: int|
                0 <= k < page ==> (#[trigger] chunks@[k]) == building_chunk(
                    target as int,
                    len as int,
                    pages@[k]->0,
                    k,
                ),
        decreases len - copied,
    {
        let va: usize = target + copied;
        let in_page: usize = va % PAGE_SIZE;
        let to_page_end: usize = PAGE_SIZE - in_page;
        let rest: usize = len - copied;
        let bytes: usize = if to_page_end < rest {
            to_page_end
        } else {
            rest
        };
        proof {
            chunks_in_numbers(target as int, len as int, page as int);
            assert(user_page(pages@[page as int]));
        }
        let mapping = pages[page].unwrap();
        let physical: usize = mapping.ppn * PAGE_SIZE + in_page;
        chunks.push(BuildingChunk { source: copied, physical, bytes });
        assert(chunks@[page as int] == building_chunk(
            target as int,
            len as int,
            mapping,
            page as int,
        ));
        copied = copied + bytes;
        page = page + 1;
    }
    Ok(chunks)
}

/// The pieces follow each other and make up everything that is written.
pub proof fn chunks_make_up_the_write(
    target: int,
    len: int,
    pages: Seq<PageMapping>,
    k: int,
)
    requires
        0 <= target,
        0 < len,
        target + len <= usize::MAX,
        pages.len() == touched(target, len),
        0 <= k < pages.len(),
    ensures
        building_chunk(target, len, pages[0], 0).source == 0,
        building_chunk(target, len, pages[k], k).bytes > 0,
        building_chunk(target, len, pages[k], k).source + building_chunk(
            target,
            len,
            pages[k],
            k,
        ).bytes == if k + 1 < pages.len() {
            building_chunk(target, len, pages[k + 1], k + 1).source as int
        } else {
            len
        },
{
    chunks_in_numbers(target, len, 0);
    chunks_in_numbers(target, len, k);
    if k + 1 < pages.len() {
        chunks_in_numbers(target, len, k + 1);
    }
}

/// Whether a thread can start at `entry` with this stack: the stack is aligned, there is
/// an image, the entry can be executed and the stack written. `entry_page` and
/// `stack_page` are what the page table says of the entry and of the byte below the
/// stack pointer.
pub fn validate_initial_context(
    stack_pointer: usize,
    image_end: usize,
    entry_page: Option<PageMapping>,
    stack_page: Option<PageMapping>,
) -> (r: Result<(), SpaceError>)
    ensures
        r == if stack_pointer != 0 && stack_pointer % 16 == 0 && image_end != 0 && entry_page is Some
            && stack_page is Some && entry_page->0.flags & (USER | EXECUTE) == USER | EXECUTE
            && stack_page->0.flags & (USER | WRITE) == USER | WRITE {
            Ok::<(), SpaceError>(())
        } else {
            Err(SpaceError::BadSegment)
        },
{
    if stack_pointer == 0 || stack_pointer % 16 != 0 || image_end == 0 {
        return Err(SpaceError::BadSegment);
    }
    let entry = match entry_page {
        None => {
            return Err(SpaceError::BadSegment);
        },
        Some(mapping) => mapping,
    };
    let stack = match stack_page {
        None => {
            return Err(SpaceError::BadSegment);
        },
        Some(mapping) => mapping,
    };
    if entry.flags & (USER | EXECUTE) != USER | EXECUTE || stack.flags & (USER | WRITE) != USER
        | WRITE {
        return Err(SpaceError::BadSegment);
    }
    Ok(())
}

/// The pages that bytes touch are the pages of the bytes: every byte is on one of them, and the
/// last one has a byte.
pub proof fn touched_pages_hold_the_bytes(start: int, len: int, b: int)
    requires
        0 <= start,
        0 <= len,
    ensures
        0 <= b < len ==> 0 <= (start + b) / 4096 - start / 4096 < touched(start, len),
        len > 0 ==> (start + len - 1) / 4096 - start / 4096 == touched(start, len) - 1,
        len == 0 ==> touched(start, len) == 0,
{
}

/// The first page that refuses is named: all before it admit the user, and it is missing or does
/// not.
pub proof fn first_refusal_is_named(pages: Seq<Option<PageMapping>>, need: u64, from: int)
    requires
        0 <= from <= pages.len(),
    ensures
        ({
            let stop = first_refusing(pages, need, from);
            &&& from <= stop <= pages.len()
            &&& forall|j: int|
                from <= j < stop ==> ((#[trigger] pages[j]) matches Some(page) && page.flags & USER
                    != 0 && page.flags & need != 0)
            &&& stop < pages.len() ==> (pages[stop] matches Some(page) ==> page.flags & USER == 0
                || page.flags & need == 0)
        }),
    decreases pages.len() - from,
{
    if from < pages.len() {
        first_refusal_is_named(pages, need, from + 1);
    }
}

/// Every byte of a write goes to its place: byte `b` is in the piece of its page, as far into the
/// page as its address is.
pub proof fn bytes_go_to_their_pages(
    target: int,
    len: int,
    mapping: PageMapping,
    k: int,
    b: int,
)
    requires
        0 <= target,
        0 < len,
        target + len <= usize::MAX,
        0 <= k < touched(target, len),
        mapping.ppn * 4096 + 4096 <= usize::MAX,
        ({
            let chunk = building_chunk(target, len, mapping, k);
            chunk.source <= b < chunk.source + chunk.bytes
        }),
    ensures
        ({
            let chunk = building_chunk(target, len, mapping, k);
            &&& k == (target + b) / 4096 - target / 4096
            &&& chunk.physical + (b - chunk.source) == mapping.ppn * 4096 + (target + b) % 4096
        }),
{
    chunks_in_numbers(target, len, k);
    let page = target / PAGE_SIZE as int;
    let begin = chunk_start(target, k);
    assert(begin == (page + k) * PAGE_SIZE + begin % PAGE_SIZE as int);
    let d = target + b - (page + k) * PAGE_SIZE;
    assert(0 <= d < PAGE_SIZE);
    assert((target + b) / 4096 == page + k) by (nonlinear_arith)
        requires
            target + b == (page + k) * 4096 + d,
            0 <= d < 4096,
    ;
}

/// A page belongs to the user exactly if it is there and says so; one that admits the user with some
/// need does, and also allows some of what is needed.
pub proof fn user_pages_are_there(page: Option<PageMapping>, need: u64)
    ensures
        user_page(page) <==> (page matches Some(mapping) && mapping.flags & USER != 0),
        page is None ==> !user_page(page),
        page matches Some(mapping) ==> (admits(mapping, need) <==> user_page(page) && mapping.flags
            & need != 0),
{
}

} // verus!
