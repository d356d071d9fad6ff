//! What a caller asks for when it maps memory, and the slot in its own memory where the
//! answer appears.
use vstd::prelude::*;

use crate::error::SystemCallError;
use crate::handle;
use crate::handle::Handle;
use crate::memory_object::Protection;
use crate::process::PAGE_SIZE;
use crate::region::{PageRange, RegionOwner};
use crate::space::SpaceError;

verus! {

/// How long the answer is.
pub const RESULT_BYTES: usize = 64;

/// Where in the answer the word stands that makes it valid; the last one.
pub const COMMITTED_OFFSET: usize = 56;

/// How the answer has to be aligned.
pub const RESULT_ALIGN: u64 = 8;

/// Whether the caller chooses the place.
#[derive(Clone, Copy, Debug, PartialEq, Eq, Structural)]
pub enum MemoryPlacement {
    Anywhere,
    FixedEmpty,
}

/// A request to map memory, in the caller's own numbers.
#[derive(Clone, Copy, Debug)]
pub struct MemoryMapRequest {
    pub bytes: u64,
    pub guard_before: u64,
    pub guard_after: u64,
    pub address: u64,
    pub result_address: u64,
    pub cookie: u64,
    /// The object's handle; 0 for anonymous memory.
    pub source: u64,
    pub source_offset: u64,
    /// The protection, if its number has a meaning.
    pub protection: Option<Protection>,
    /// The placement, if its number has a meaning.
    pub placement: Option<MemoryPlacement>,
    pub reserved: u64,
}

/// What the slot for the answer holds beforehand.
#[derive(Clone, Copy, Debug, PartialEq, Eq, Structural)]
pub struct ResultSlot {
    /// The reserved words are all zero.
    pub reserved_clear: bool,
    pub committed: u64,
}

/// Where the mapped bytes come from.
#[derive(Clone, Copy, Debug, PartialEq, Eq, Structural)]
pub enum MapSource {
    Anonymous,
    Object { handle: Handle, offset: usize },
}

/// Who may take the mapping away again.
#[derive(Clone, Copy, Debug, PartialEq, Eq, Structural)]
pub enum MapAuthority {
    AddressSpace,
    ObjectLease,
}

/// Where the mapping goes.
#[derive(Clone, Copy, Debug, PartialEq, Eq, Structural)]
pub enum MapPlacement {
    Anywhere,
    FixedEmpty { usable_start: usize },
}

/// A request that makes sense.
#[derive(Clone, Copy, Debug)]
pub struct MapIntent {
    pub bytes: usize,
    pub guard_before: usize,
    pub guard_after: usize,
    pub placement: MapPlacement,
    pub protection: Protection,
    /// Address of the slot for the answer, and the word that makes it valid; a mapping
    /// that the kernel makes for itself has none.
    pub result: Option<(usize, u64)>,
    pub source: MapSource,
    pub authority: MapAuthority,
}

/// What anonymous memory is for: only the image of a process that is built may be
/// executable.
#[derive(Clone, Copy, Debug, PartialEq, Eq, Structural)]
pub enum AnonymousClass {
    Data,
    InitialExecutable,
}

/// What stands behind a mapping that is asked for.
#[derive(Clone, Copy, Debug, PartialEq, Eq, Structural)]
pub enum MapBacking {
    Anonymous { identity: u64, class: AnonymousClass },
    /// A view of an object from `offset` on; the object admits `maximum`.
    Object { object: u64, maximum: Protection, offset: usize },
}

/// A mapping as the ledger of an address space is asked for it.
#[derive(Clone, Copy, Debug, PartialEq, Eq, Structural)]
pub struct LedgerRequest {
    pub bytes: usize,
    pub guard_before: usize,
    pub guard_after: usize,
    pub placement: MapPlacement,
    pub current: Protection,
    pub maximum: Protection,
    pub owner: RegionOwner,
    pub backing: MapBacking,
    /// Address of the slot for the answer, to be leased until it is written.
    pub result: Option<usize>,
}

/// A change as the ledger of an address space is asked for it.
#[derive(Clone, Copy, Debug, PartialEq, Eq, Structural)]
pub enum LedgerChange {
    Mapping(LedgerRequest),
    Unmap { range: PageRange, authority: RegionOwner },
    Protect { range: PageRange, protection: Protection, authority: RegionOwner },
}

/// What the ledger is asked for on behalf of `intent`. The protection is frozen: it can
/// be lowered later, but never raised beyond this.
pub open spec fn requested(
    intent: MapIntent,
    owner: RegionOwner,
    backing: MapBacking,
) -> LedgerRequest {
    LedgerRequest {
        bytes: intent.bytes,
        guard_before: intent.guard_before,
        guard_after: intent.guard_after,
        placement: intent.placement,
        current: intent.protection,
        maximum: intent.protection,
        owner,
        backing,
        result: match intent.result {
            Some((address, _)) => Some(address),
            None => None,
        },
    }
}

/// What the ledger is asked for on behalf of `intent`.
pub fn map_request(intent: &MapIntent, owner: RegionOwner, backing: MapBacking) -> (r:
    LedgerRequest)
    ensures
        r == requested(*intent, owner, backing),
{
    LedgerRequest {
        bytes: intent.bytes,
        guard_before: intent.guard_before,
        guard_after: intent.guard_after,
        placement: intent.placement,
        current: intent.protection,
        maximum: intent.protection,
        owner,
        backing,
        result: match intent.result {
            Some((address, _)) => Some(address),
            None => None,
        },
    }
}

/// What the ledger is asked for on behalf of a process that is built: `bytes` at `vaddr`,
/// without guards and without an answer.
pub open spec fn building_request(
    vaddr: usize,
    bytes: usize,
    protection: Protection,
    owner: RegionOwner,
    identity: u64,
    class: AnonymousClass,
) -> LedgerRequest {
    LedgerRequest {
        bytes,
        guard_before: 0,
        guard_after: 0,
        placement: MapPlacement::FixedEmpty { usable_start: vaddr },
        current: protection,
        maximum: protection,
        owner,
        backing: MapBacking::Anonymous { identity, class },
        result: None,
    }
}

/// What memory with this protection is for in a process that is built.
pub open spec fn image_class(protection: Protection) -> AnonymousClass {
    if protection == Protection::ReadExecute {
        AnonymousClass::InitialExecutable
    } else {
        AnonymousClass::Data
    }
}

/// The number can be told as a length or address.
pub open spec fn fits(value: u64) -> bool {
    value <= usize::MAX
}

impl MemoryMapRequest {
    /// What can be seen without looking at where the bytes come from is in order.
    pub open spec fn plain_parts_ok(self) -> bool {
        &&& fits(self.bytes)
        &&& self.bytes != 0
        &&& fits(self.guard_before)
        &&& fits(self.guard_after)
        &&& fits(self.result_address)
        &&& self.protection is Some
        &&& self.reserved == 0
    }

    /// The source is told properly.
    pub open spec fn source_ok(self) -> bool {
        if self.source == 0 {
            self.source_offset == 0
        } else {
            fits(self.source_offset) && self.source_offset % PAGE_SIZE as u64 == 0
        }
    }

    /// The place is told properly.
    pub open spec fn placement_ok(self) -> bool {
        match self.placement {
            Some(MemoryPlacement::Anywhere) => self.address == 0,
            Some(MemoryPlacement::FixedEmpty) => fits(self.address),
            None => false,
        }
    }

    /// What the request comes to. Anonymous memory is never executable: executable
    /// bytes have to be published through an object.
    pub open spec fn intent(self) -> Result<MapIntent, SystemCallError> {
        if !self.plain_parts_ok() || !self.source_ok() {
            Err(SystemCallError::IllegalArgument)
        } else if self.source == 0 && self.protection == Some(Protection::ReadExecute) {
            Err(SystemCallError::RightsDenied)
        } else if !self.placement_ok() || self.result_address + RESULT_BYTES > usize::MAX {
            Err(SystemCallError::IllegalArgument)
        } else {
            Ok(
                MapIntent {
                    bytes: self.bytes as usize,
                    guard_before: self.guard_before as usize,
                    guard_after: self.guard_after as usize,
                    placement: if self.placement == Some(MemoryPlacement::Anywhere) {
                        MapPlacement::Anywhere
                    } else {
                        MapPlacement::FixedEmpty { usable_start: self.address as usize }
                    },
                    protection: self.protection->0,
                    result: Some((self.result_address as usize, self.cookie)),
                    source: if self.source == 0 {
                        MapSource::Anonymous
                    } else {
                        MapSource::Object {
                            handle: self.source,
                            offset: self.source_offset as usize,
                        }
                    },
                    authority: MapAuthority::AddressSpace,
                },
            )
        }
    }
}

/// The number as a length or address, if it can be told as one.
fn narrow(value: u64) -> (r: Result<usize, SystemCallError>)
    ensures
        r == if fits(value) {
            Ok::<usize, SystemCallError>(value as usize)
        } else {
            Err(SystemCallError::IllegalArgument)
        },
{
    if value > usize::MAX as u64 {
        Err(SystemCallError::IllegalArgument)
    } else {
        Ok(value as usize)
    }
}

impl MapIntent {
    /// Reads a request.
    pub fn parse(request: MemoryMapRequest) -> (r: Result<MapIntent, SystemCallError>)
        ensures
            r == request.intent(),
            r matches Ok(intent) ==> {
                &&& intent.bytes == request.bytes
                &&& intent.guard_before == request.guard_before
                &&& intent.guard_after == request.guard_after
                &&& Some(intent.protection) == request.protection
                &&& intent.result matches Some((address, cookie)) && address
                    == request.result_address && cookie == request.cookie
                &&& request.source == 0 ==> intent.source is Anonymous
                &&& request.source != 0 ==> (intent.source matches MapSource::Object {
                    handle,
                    offset,
                } && handle == request.source && offset == request.source_offset)
                &&& intent.placement matches MapPlacement::FixedEmpty { usable_start }
                    ==> usable_start == request.address
            },
    {
        let bytes = match narrow(request.bytes) {
            Err(error) => {
                return Err(error);
            },
            Ok(bytes) => bytes,
        };
        if bytes == 0 {
            return Err(SystemCallError::IllegalArgument);
        }
        let guard_before = match narrow(request.guard_before) {
            Err(error) => {
                return Err(error);
            },
            Ok(bytes) => bytes,
        };
        let guard_after = match narrow(request.guard_after) {
            Err(error) => {
                return Err(error);
            },
            Ok(bytes) => bytes,
        };
        let result_address = match narrow(request.result_address) {
            Err(error) => {
                return Err(error);
            },
            Ok(address) => address,
        };
        let protection = match request.protection {
            None => {
                return Err(SystemCallError::IllegalArgument);
            },
            Some(protection) => protection,
        };
        if request.reserved != 0 {
            return Err(SystemCallError::IllegalArgument);
        }
        let source = if request.source == 0 {
            if request.source_offset != 0 {
                return Err(SystemCallError::IllegalArgument);
            }
            if protection == Protection::ReadExecute {
                return Err(SystemCallError::RightsDenied);
            }
            MapSource::Anonymous
        } else {
            let offset = match narrow(request.source_offset) {
                Err(error) => {
                    return Err(error);
                },
                Ok(offset) => offset,
            };
            if offset % PAGE_SIZE != 0 {
                return Err(SystemCallError::IllegalArgument);
            }
            MapSource::Object { handle: request.source, offset }
        };
        let placement = match request.placement {
            None => {
                return Err(SystemCallError::IllegalArgument);
            },
            Some(MemoryPlacement::Anywhere) => {
                if request.address != 0 {
                    return Err(SystemCallError::IllegalArgument);
                }
                MapPlacement::Anywhere
            },
            Some(MemoryPlacement::FixedEmpty) => match narrow(request.address) {
                Err(error) => {
                    return Err(error);
                },
                Ok(usable_start) => MapPlacement::FixedEmpty { usable_start },
            },
        };
        if result_address.checked_add(RESULT_BYTES).is_none() {
            return Err(SystemCallError::IllegalArgument);
        }
        Ok(
            MapIntent {
                bytes,
                guard_before,
                guard_after,
                placement,
                protection,
                result: Some((result_address, request.cookie)),
                source,
                authority: MapAuthority::AddressSpace,
            },
        )
    }

    /// A mapping that an object makes for itself, at `va`.
    pub fn object_lease(va: usize, bytes: usize, protection: Protection) -> (r: MapIntent)
        ensures
            r == (MapIntent {
                bytes,
                guard_before: 0,
                guard_after: 0,
                placement: MapPlacement::FixedEmpty { usable_start: va },
                protection,
                result: None,
                source: MapSource::Object { handle: handle::INVALID, offset: 0 },
                authority: MapAuthority::ObjectLease,
            }),
    {
        MapIntent {
            bytes,
            guard_before: 0,
            guard_after: 0,
            placement: MapPlacement::FixedEmpty { usable_start: va },
            protection,
            result: None,
            source: MapSource::Object { handle: handle::INVALID, offset: 0 },
            authority: MapAuthority::ObjectLease,
        }
    }

    /// How many pages the mapping takes.
    pub open spec fn spec_pages(self) -> int {
        (self.bytes + (PAGE_SIZE - 1)) / PAGE_SIZE as int
    }

    /// How many pages the mapping takes.
    pub fn pages(&self) -> (r: usize)
        ensures
            r == self.spec_pages(),
    {
        let whole: usize = self.bytes / PAGE_SIZE;
        if self.bytes % PAGE_SIZE == 0 {
            whole
        } else {
            whole + 1
        }
    }
}

/// Reads a request together with the slot for its answer, `slot`, which the caller has
/// to have prepared: aligned, zeroed and with a word that tells it from an old answer.
pub fn memory_map(
    request: MemoryMapRequest,
    slot: Result<ResultSlot, SystemCallError>,
) -> (r: Result<MapIntent, SystemCallError>)
    ensures
        r == if request.cookie == 0 || request.result_address % RESULT_ALIGN != 0 || !fits(
            request.result_address,
        ) {
            Err::<MapIntent, _>(SystemCallError::IllegalArgument)
        } else if slot is Err {
            Err(slot->Err_0)
        } else if !(slot->Ok_0).reserved_clear || (slot->Ok_0).committed != 0 {
            Err(SystemCallError::IllegalArgument)
        } else {
            request.intent()
        },
        r matches Ok(intent) ==> {
            &&& intent.bytes == request.bytes
            &&& intent.guard_before == request.guard_before
            &&& intent.guard_after == request.guard_after
            &&& Some(intent.protection) == request.protection
            &&& intent.result matches Some((address, cookie)) && address
                == request.result_address && cookie == request.cookie
            &&& request.source == 0 ==> intent.source is Anonymous
            &&& request.source != 0 ==> (intent.source matches MapSource::Object {
                handle,
                offset,
            } && handle == request.source && offset == request.source_offset)
            &&& intent.placement matches MapPlacement::FixedEmpty { usable_start }
                ==> usable_start == request.address
        },
{
    if request.cookie == 0 || request.result_address % RESULT_ALIGN != 0 {
        return Err(SystemCallError::IllegalArgument);
    }
    match narrow(request.result_address) {
        Err(error) => {
            return Err(error);
        },
        Ok(_) => {},
    }
    let slot = match slot {
        Err(error) => {
            return Err(error);
        },
        Ok(slot) => slot,
    };
    if !slot.reserved_clear || slot.committed != 0 {
        return Err(SystemCallError::IllegalArgument);
    }
    MapIntent::parse(request)
}

/// A piece of the answer and the physical address it goes to.
#[derive(Clone, Copy, Debug, PartialEq, Eq, Structural)]
pub struct PinnedWriteChunk {
    pub physical: usize,
    /// Where the piece starts in the answer.
    pub result_offset: usize,
    pub bytes: usize,
}

/// How many pages the slot at `start` touches.
pub open spec fn slot_pages(start: int) -> int {
    (start + RESULT_BYTES - 1) / PAGE_SIZE as int - start / PAGE_SIZE as int + 1
}

/// Where piece `k` of a slot at `start` begins.
pub open spec fn piece_start(start: int, k: int) -> int {
    if k <= 0 {
        start
    } else {
        (start / PAGE_SIZE as int + k) * PAGE_SIZE
    }
}

/// Where piece `k` of a slot at `start` ends: at the end of its page or of the slot.
pub open spec fn piece_end(start: int, k: int) -> int {
    let page_end = (start / PAGE_SIZE as int + k + 1) * PAGE_SIZE;
    if page_end < start + RESULT_BYTES {
        page_end
    } else {
        start + RESULT_BYTES
    }
}

/// Piece `k` of a slot at `start` whose page has physical address `page`.
pub open spec fn pinned_piece(start: int, page: usize, k: int) -> PinnedWriteChunk {
    PinnedWriteChunk {
        physical: (page + piece_start(start, k) % PAGE_SIZE as int) as usize,
        result_offset: (piece_start(start, k) - start) as usize,
        bytes: (piece_end(start, k) - piece_start(start, k)) as usize,
    }
}

/// The pieces are those of a slot at `start` on these pages.
pub open spec fn pinned(
    start: int,
    pages: Seq<Option<usize>>,
    chunks: Seq<PinnedWriteChunk>,
) -> bool {
    &&& chunks.len() == pages.len()
    &&& forall|k: int| 0 <= k < pages.len() ==> (#[trigger] pages[k]) is Some
    &&& forall|k: int|
        0 <= k < chunks.len() ==> (#[trigger] chunks[k]) == pinned_piece(start, pages[k]->0, k)
}

/// Where the pieces lie within their pages.
proof fn pieces_in_numbers(start: int, k: int)
    requires
        0 <= start,
        0 <= k < slot_pages(start),
    ensures
        start <= piece_start(start, k) < piece_end(start, k) <= start + RESULT_BYTES,
        piece_start(start, k) % PAGE_SIZE as int == if k == 0 {
            start % PAGE_SIZE as int
        } else {
            0
        },
        piece_end(start, k) - piece_start(start, k) <= PAGE_SIZE - piece_start(start, k)
            % PAGE_SIZE as int,
        piece_end(start, k) < start + RESULT_BYTES ==> piece_end(start, k) - piece_start(start, k)
            == PAGE_SIZE - piece_start(start, k) % PAGE_SIZE as int,
        k + 1 < slot_pages(start) ==> piece_end(start, k) == piece_start(start, k + 1)
            && piece_end(start, k) < start + RESULT_BYTES,
        k + 1 == slot_pages(start) ==> piece_end(start, k) == start + RESULT_BYTES,
{
    let page = start / PAGE_SIZE as int;
    assert(start == page * PAGE_SIZE + start % PAGE_SIZE as int);
    assert(slot_pages(start) <= 2);
}

/// Pins the slot at `start` down, whose pages have the physical addresses `pages`; `room`
/// says whether its pieces can be listed.
pub fn pin_map_result(start: usize, pages: &Vec<Option<usize>>, room: bool) -> (r: Result<
    Vec<PinnedWriteChunk>,
    SystemCallError,
>)
    requires
        start + RESULT_BYTES <= usize::MAX,
        pages@.len() == slot_pages(start as int),
        forall|k: int|
            0 <= k < pages@.len() && (#[trigger] pages@[k]) is Some ==> pages@[k]->0 + PAGE_SIZE
                <= usize::MAX,
    ensures
        r is Err <==> !room || exists|k: int|
            0 <= k < pages@.len() && (#[trigger] pages@[k]) is None,
        r matches Err(error) ==> error == if room {
            SystemCallError::InternalError
        } else {
            SystemCallError::OutOfMemory
        },
        r matches Ok(chunks) ==> pinned(start as int, pages@, chunks@),
{
    if !room {
        return Err(SystemCallError::OutOfMemory);
    }
    let mut chunks: Vec<PinnedWriteChunk> = Vec::new();
    let mut result_offset: usize = 0;
    let mut index: usize = 0;
    while result_offset < RESULT_BYTES
        invariant
            room,
            start + RESULT_BYTES <= usize::MAX,
            pages@.len() == slot_pages(start as int),
            forall|k: int|
                0 <= k < pages@.len() && (#[trigger] pages@[k]) is Some ==> pages@[k]->0
                    + PAGE_SIZE <= usize::MAX,
            index <= pages@.len(),
            result_offset <= RESULT_BYTES,
            result_offset < RESULT_BYTES ==> index < pages@.len() && result_offset == piece_start(
                start as int,
                index as int,
            ) - start,
            result_offset == RESULT_BYTES ==> index == pages@.len(),
            chunks@.len() == index,
            forall|k: int| 0 <= k < index ==> (#[trigger] pages@[k]) is Some,
            forall|k: int|
                0 <= k < index ==> (#[trigger] chunks@[k]) == pinned_piece(
                    start as int,
                    pages@[k]->0,
                    k,
                ),
        decreases RESULT_BYTES - result_offset,
    {
        let user: usize = start + result_offset;
        let in_page: usize = user % PAGE_SIZE;
        let to_page_end: usize = PAGE_SIZE - in_page;
        let rest: usize = RESULT_BYTES - result_offset;
        let bytes: usize = if to_page_end < rest {
            to_page_end
        } else {
            rest
        };
        proof {
            pieces_in_numbers(start as int, index as int);
        }
        let page: usize = match pages[index] {
            None => {
                assert(pages@[index as int] is None);
                return Err(SystemCallError::InternalError);
            },
            Some(page) => page,
        };
        assert(pages@[index as int] == Some(page));
        chunks.push(PinnedWriteChunk { physical: page + in_page, result_offset, bytes });
        assert(chunks@[index as int] == pinned_piece(start as int, page, index as int));
        result_offset = result_offset + bytes;
        index = index + 1;
    }
    Ok(chunks)
}

/// A piece of the answer to copy, without the word that makes it valid.
pub open spec fn payload_of(chunk: PinnedWriteChunk) -> PinnedWriteChunk {
    PinnedWriteChunk {
        bytes: if chunk.bytes < COMMITTED_OFFSET - chunk.result_offset {
            chunk.bytes
        } else {
            (COMMITTED_OFFSET - chunk.result_offset) as usize
        },
        ..chunk
    }
}

/// What to copy before the answer is made valid: everything but its last word.
pub fn write_payload(chunks: &Vec<PinnedWriteChunk>) -> (r: Vec<PinnedWriteChunk>)
    requires
        forall|i: int, j: int|
            0 <= i < j < chunks@.len() ==> (#[trigger] chunks@[i]).result_offset < (
            #[trigger] chunks@[j]).result_offset,
    ensures
        r@.len() <= chunks@.len(),
        forall|k: int|
            0 <= k < r@.len() ==> (#[trigger] chunks@[k]).result_offset < COMMITTED_OFFSET,
        forall|k: int| 0 <= k < r@.len() ==> (#[trigger] r@[k]) == payload_of(chunks@[k]),
        forall|k: int|
            r@.len() <= k < chunks@.len() ==> (#[trigger] chunks@[k]).result_offset
                >= COMMITTED_OFFSET,
{
    let mut copies: Vec<PinnedWriteChunk> = Vec::new();
    let mut index: usize = 0;
    while index < chunks.len()
        invariant
            index <= chunks@.len(),
            copies@.len() == index,
            forall|i: int, j: int|
                0 <= i < j < chunks@.len() ==> (#[trigger] chunks@[i]).result_offset < (
                #[trigger] chunks@[j]).result_offset,
            forall|k: int|
                0 <= k < index ==> (#[trigger] chunks@[k]).result_offset < COMMITTED_OFFSET,
            forall|k: int| 0 <= k < index ==> (#[trigger] copies@[k]) == payload_of(chunks@[k]),
        decreases chunks@.len() - index,
    {
        let chunk = chunks[index];
        if chunk.result_offset >= COMMITTED_OFFSET {
            return copies;
        }
        let rest: usize = COMMITTED_OFFSET - chunk.result_offset;
        let bytes: usize = if chunk.bytes < rest {
            chunk.bytes
        } else {
            rest
        };
        copies.push(PinnedWriteChunk { bytes, ..chunk });
        index = index + 1;
    }
    copies
}

/// The piece holds the word that makes the answer valid.
pub open spec fn holds_cookie(chunk: PinnedWriteChunk) -> bool {
    chunk.result_offset <= COMMITTED_OFFSET && RESULT_BYTES <= chunk.result_offset + chunk.bytes
}

/// Physical address of the word that makes the answer valid.
pub fn commit_cookie(chunks: &Vec<PinnedWriteChunk>) -> (r: usize)
    requires
        exists|k: int| 0 <= k < chunks@.len() && holds_cookie(#[trigger] chunks@[k]),
        forall|k: int|
            0 <= k < chunks@.len() ==> (#[trigger] chunks@[k]).physical + RESULT_BYTES
                <= usize::MAX && chunks@[k].result_offset + chunks@[k].bytes <= RESULT_BYTES,
    ensures
        exists|k: int|
            0 <= k < chunks@.len() && holds_cookie(#[trigger] chunks@[k]) && r
                == chunks@[k].physical + (COMMITTED_OFFSET - chunks@[k].result_offset),
{
    let mut index: usize = 0;
    loop
        invariant
            index <= chunks@.len(),
            exists|k: int| index <= k < chunks@.len() && holds_cookie(#[trigger] chunks@[k]),
            forall|k: int|
                0 <= k < chunks@.len() ==> (#[trigger] chunks@[k]).physical + RESULT_BYTES
                    <= usize::MAX && chunks@[k].result_offset + chunks@[k].bytes <= RESULT_BYTES,
        decreases chunks@.len() - index,
    {
        assert(chunks@.len() == chunks.len());
        let chunk = chunks[index];
        assert(chunk == chunks@[index as int]);
        if chunk.result_offset <= COMMITTED_OFFSET && RESULT_BYTES <= chunk.result_offset
            + chunk.bytes {
            assert(holds_cookie(chunks@[index as int]));
            return chunk.physical + (COMMITTED_OFFSET - chunk.result_offset);
        }
        index = index + 1;
    }
}

/// An aligned slot keeps its last word on one page, aligned as well: it can be written
/// in one step.
pub proof fn cookie_is_in_one_piece(
    start: int,
    pages: Seq<Option<usize>>,
    chunks: Seq<PinnedWriteChunk>,
)
    requires
        0 <= start,
        start + RESULT_BYTES <= usize::MAX,
        start % RESULT_ALIGN as int == 0,
        pages.len() == slot_pages(start),
        pinned(start, pages, chunks),
        forall|k: int|
            0 <= k < pages.len() ==> (#[trigger] pages[k]) is Some && pages[k]->0
                % PAGE_SIZE == 0 && pages[k]->0 + PAGE_SIZE <= usize::MAX,
    ensures
        holds_cookie(chunks.last()),
        chunks.len() > 0,
        (chunks.last().physical + (COMMITTED_OFFSET - chunks.last().result_offset))
            % RESULT_ALIGN as int == 0,
{
    let k = chunks.len() - 1;
    pieces_in_numbers(start, k);
    assert(pages[k] is Some);
    let frame = pages[k]->0 as int;
    let offset = start % PAGE_SIZE as int;
    assert(chunks[k] == pinned_piece(start, pages[k]->0, k));
    aligned_parts(start / PAGE_SIZE as int, offset, frame);
    if k == 0 {
        assert(chunks[k].physical == frame + offset);
        assert(chunks[k].result_offset == 0);
    } else {
        assert(k == 1);
        assert(chunks[k].physical == frame);
        assert(chunks[k].result_offset == PAGE_SIZE - offset);
    }
}

/// The parts of an aligned address are aligned.
proof fn aligned_parts(page: int, offset: int, frame: int)
    requires
        0 <= offset < PAGE_SIZE,
        (page * PAGE_SIZE + offset) % 8 == 0,
        frame % PAGE_SIZE as int == 0,
    ensures
        offset % 8 == 0,
        (frame + offset + 56) % 8 == 0,
        (frame + 56 - (PAGE_SIZE - offset)) % 8 == 0,
{
    let f = frame / PAGE_SIZE as int;
    let q = (page * PAGE_SIZE + offset) / 8 - 512 * page;
    assert(frame == 8 * (512 * f));
    assert(offset == 8 * q);
    eights(q);
    eights(512 * f + q + 7);
    eights(512 * f + 7 - 512 + q);
}

/// Eight times anything is divisible by eight.
proof fn eights(n: int)
    ensures
        (8 * n) % 8 == 0,
{
}

/// The pieces follow each other and make up the whole answer.
pub proof fn pieces_make_up_the_answer(
    start: int,
    pages: Seq<Option<usize>>,
    chunks: Seq<PinnedWriteChunk>,
    k: int,
)
    requires
        0 <= start,
        start + RESULT_BYTES <= usize::MAX,
        pages.len() == slot_pages(start),
        pinned(start, pages, chunks),
        0 <= k < chunks.len(),
    ensures
        chunks[0].result_offset == 0,
        chunks[k].bytes > 0,
        chunks[k].result_offset + chunks[k].bytes == if k + 1 < chunks.len() {
            chunks[k + 1].result_offset as int
        } else {
            RESULT_BYTES as int
        },
{
    pieces_in_numbers(start, 0);
    pieces_in_numbers(start, k);
    assert(chunks[0] == pinned_piece(start, pages[0]->0, 0));
    assert(chunks[k] == pinned_piece(start, pages[k]->0, k));
    if k + 1 < chunks.len() {
        pieces_in_numbers(start, k + 1);
        assert(chunks[k + 1] == pinned_piece(start, pages[k + 1]->0, k + 1));
    }
}

/// What a builder asks a mapping to allow.
#[derive(Clone, Copy, Debug, PartialEq, Eq, Structural)]
pub struct ProcessMapFlags {
    pub read: bool,
    pub write: bool,
    pub execute: bool,
    /// Something is asked for that has no meaning.
    pub unknown: bool,
}

/// The protection that the flags stand for: reading is always part of it, and nothing is
/// both written and executed.
pub open spec fn flags_protection(flags: ProcessMapFlags) -> Option<Protection> {
    match (flags.read, flags.write, flags.execute) {
        (true, false, false) => Some(Protection::ReadOnly),
        (true, true, false) => Some(Protection::ReadWrite),
        (true, false, true) => Some(Protection::ReadExecute),
        _ => None,
    }
}

/// The protection that the flags stand for.
pub fn process_protection(flags: ProcessMapFlags) -> (r: Result<Protection, SpaceError>)
    ensures
        r == match flags_protection(flags) {
            Some(protection) => Ok::<_, SpaceError>(protection),
            None => Err(SpaceError::BadSegment),
        },
{
    match (flags.read, flags.write, flags.execute) {
        (true, false, false) => Ok(Protection::ReadOnly),
        (true, true, false) => Ok(Protection::ReadWrite),
        (true, false, true) => Ok(Protection::ReadExecute),
        _ => Err(SpaceError::BadSegment),
    }
}

/// Where user memory ends; the main stack stands at its very top.
#[derive(Clone, Copy, Debug)]
pub struct UserSpace {
    pub top: usize,
    pub stack_bytes: usize,
}

impl UserSpace {
    pub open spec fn wf(self) -> bool {
        &&& self.top % PAGE_SIZE == 0
        &&& self.stack_bytes % PAGE_SIZE == 0
        &&& 0 < self.stack_bytes < self.top
    }

    /// Where the stack begins.
    pub open spec fn spec_stack_base(self) -> int {
        self.top - self.stack_bytes
    }

    /// Where the stack begins.
    pub fn stack_base(&self) -> (r: usize)
        requires
            self.wf(),
        ensures
            r == self.spec_stack_base(),
    {
        self.top - self.stack_bytes
    }
}

/// `len` bytes at `vaddr` can be mapped into a process under construction: whole pages, a
/// protection that has a meaning, and not from the image into the stack.
pub open spec fn building_allowed(
    user: UserSpace,
    vaddr: usize,
    len: usize,
    flags: ProcessMapFlags,
) -> bool {
    &&& len != 0
    &&& vaddr % PAGE_SIZE == 0
    &&& len % PAGE_SIZE == 0
    &&& !flags.unknown
    &&& flags_protection(flags) is Some
    &&& vaddr + len <= user.top
    &&& vaddr < user.spec_stack_base() ==> vaddr + len <= user.spec_stack_base()
}

/// What mapping `len` bytes at `vaddr` into a process under construction comes to: the
/// protection, and how far the image reaches from now on if the mapping is part of it.
/// One mapping may not reach from the image into the stack.
pub fn building_intent(
    user: UserSpace,
    vaddr: usize,
    len: usize,
    flags: ProcessMapFlags,
) -> (r: Result<(Protection, Option<usize>), SpaceError>)
    requires
        user.wf(),
    ensures
        r == if !building_allowed(user, vaddr, len, flags) {
            Err::<(Protection, Option<usize>), _>(SpaceError::BadSegment)
        } else {
            Ok(
                (
                    flags_protection(flags)->0,
                    if vaddr + len <= user.spec_stack_base() {
                        Some((vaddr + len) as usize)
                    } else {
                        None
                    },
                ),
            )
        },
{
    if len == 0 || vaddr % PAGE_SIZE != 0 || len % PAGE_SIZE != 0 || flags.unknown {
        return Err(SpaceError::BadSegment);
    }
    let protection = match process_protection(flags) {
        Err(error) => {
            return Err(error);
        },
        Ok(protection) => protection,
    };
    let end: usize = match vaddr.checked_add(len) {
        None => {
            return Err(SpaceError::BadSegment);
        },
        Some(end) => end,
    };
    let stack_base: usize = user.stack_base();
    if end > user.top || (vaddr < stack_base && end > stack_base) {
        return Err(SpaceError::BadSegment);
    }
    let image_end: Option<usize> = if end <= stack_base {
        Some(end)
    } else {
        None
    };
    Ok((protection, image_end))
}

/// A request that is accepted keeps every number that the caller gave: how much is mapped, the
/// guards, the place, the protection, where the answer goes and what makes it valid, and of
/// what the mapping shows: the object behind the caller's handle, from the caller's offset on,
/// or anonymous memory if the caller names none.
pub proof fn accepted_requests_keep_their_numbers(request: MemoryMapRequest)
    requires
        request.intent() is Ok,
    ensures
        ({
            let intent = request.intent()->Ok_0;
            &&& intent.bytes == request.bytes
            &&& intent.guard_before == request.guard_before
            &&& intent.guard_after == request.guard_after
            &&& Some(intent.protection) == request.protection
            &&& intent.result matches Some((address, cookie)) && address == request.result_address
                && cookie == request.cookie
            &&& request.source == 0 <==> intent.source is Anonymous
            &&& request.source != 0 ==> (intent.source matches MapSource::Object { handle, offset }
                && handle == request.source && offset == request.source_offset)
            &&& request.placement == Some(MemoryPlacement::Anywhere) <==> intent.placement
                is Anywhere
            &&& request.placement == Some(MemoryPlacement::FixedEmpty) ==> (
            intent.placement matches MapPlacement::FixedEmpty { usable_start } && usable_start
                == request.address)
            &&& intent.authority is AddressSpace
        }),
{
}

/// Two requests that are accepted and come to the same ask for the same.
pub proof fn different_requests_stay_different(a: MemoryMapRequest, b: MemoryMapRequest)
    requires
        a.intent() is Ok,
        a.intent() == b.intent(),
    ensures
        a.bytes == b.bytes,
        a.guard_before == b.guard_before,
        a.guard_after == b.guard_after,
        a.address == b.address,
        a.result_address == b.result_address,
        a.cookie == b.cookie,
        a.source == b.source,
        a.source_offset == b.source_offset,
        a.protection == b.protection,
        a.placement == b.placement,
{
}

/// Which requests are refused: anonymous memory that is to be executed, as denied, and those
/// with a number that means nothing here: no bytes, an unknown protection or placement, a
/// reserved word that is not zero, an address where none is asked for, an offset without a
/// source or not at a page, or an answer that does not fit. Everything else is accepted.
pub proof fn requests_that_are_refused(request: MemoryMapRequest)
    requires
        request.bytes <= usize::MAX,
        request.guard_before <= usize::MAX,
        request.guard_after <= usize::MAX,
        request.address <= usize::MAX,
        request.source_offset <= usize::MAX,
        request.result_address <= usize::MAX,
    ensures
        ({
            let bad = request.bytes == 0 || request.protection is None || request.reserved != 0 || (
            request.source == 0 && request.source_offset != 0) || request.source_offset % 4096 != 0;
            let misplaced = request.placement is None || (request.placement == Some(
                MemoryPlacement::Anywhere,
            ) && request.address != 0) || request.result_address + 64 > usize::MAX;
            let denied = request.source == 0 && request.protection == Some(
                Protection::ReadExecute,
            );
            &&& request.intent() is Ok <==> !bad && !misplaced && !denied
            &&& request.intent() == Err::<MapIntent, _>(SystemCallError::RightsDenied) <==> !bad
                && denied
            &&& request.intent() is Err ==> request.intent()->Err_0
                == SystemCallError::RightsDenied || request.intent()->Err_0
                == SystemCallError::IllegalArgument
        }),
{
}

/// The ledger is asked for just what the intent says, and can never grant more later: the
/// protection now is the most there will ever be.
pub proof fn ledger_is_asked_for_the_intent(
    intent: MapIntent,
    owner: RegionOwner,
    backing: MapBacking,
)
    ensures
        ({
            let asked = requested(intent, owner, backing);
            &&& (asked.bytes, asked.guard_before, asked.guard_after) == (
                intent.bytes,
                intent.guard_before,
                intent.guard_after,
            )
            &&& asked.placement == intent.placement
            &&& asked.current == intent.protection && asked.maximum == asked.current
            &&& asked.owner == owner && asked.backing == backing
            &&& asked.result is Some <==> intent.result is Some
            &&& intent.result matches Some(slot) ==> asked.result == Some(slot.0)
        }),
{
}

/// A process under construction gets its memory at the very address, without guards, and
/// executable only as part of its image.
pub proof fn built_memory_is_where_it_was_put(
    vaddr: usize,
    bytes: usize,
    protection: Protection,
    owner: RegionOwner,
    identity: u64,
)
    ensures
        ({
            let asked = building_request(
                vaddr,
                bytes,
                protection,
                owner,
                identity,
                image_class(protection),
            );
            &&& asked.placement == (MapPlacement::FixedEmpty { usable_start: vaddr })
            &&& asked.bytes == bytes && asked.guard_before == 0 && asked.guard_after == 0
            &&& asked.current == protection && asked.maximum == protection
            &&& asked.owner == owner && asked.result is None
            &&& asked.backing matches MapBacking::Anonymous { identity: own, class } && own
                == identity && (class is InitialExecutable <==> protection is ReadExecute)
        }),
{
}

/// A mapping takes the least number of pages that hold its bytes.
pub proof fn pages_are_just_enough(intent: MapIntent)
    ensures
        intent.bytes <= intent.spec_pages() * 4096 < intent.bytes + 4096,
{
}

/// Every byte of the answer goes to its place: byte `b`, which stands `b` bytes behind the
/// slot's start, is in the piece of its page, as far into the page as its address is.
pub proof fn answer_goes_to_its_pages(
    start: int,
    pages: Seq<Option<usize>>,
    chunks: Seq<PinnedWriteChunk>,
    k: int,
    b: int,
)
    requires
        0 <= start,
        start + RESULT_BYTES <= usize::MAX,
        pages.len() == slot_pages(start),
        pinned(start, pages, chunks),
        forall|i: int|
            0 <= i < pages.len() ==> (#[trigger] pages[i]) is Some && pages[i]->0 + PAGE_SIZE
                <= usize::MAX,
        0 <= k < chunks.len(),
        chunks[k].result_offset <= b < chunks[k].result_offset + chunks[k].bytes,
    ensures
        k == (start + b) / 4096 - start / 4096,
        chunks[k].physical + (b - chunks[k].result_offset) == pages[k]->0 + (start + b) % 4096,
{
    pieces_in_numbers(start, k);
    assert(pages[k] is Some);
    assert(chunks[k] == pinned_piece(start, pages[k]->0, k));
    let page = start / PAGE_SIZE as int;
    assert(start == page * PAGE_SIZE + start % PAGE_SIZE as int);
    let begin = piece_start(start, k);
    assert(begin == (page + k) * PAGE_SIZE + begin % PAGE_SIZE as int);
    let d = start + b - (page + k) * PAGE_SIZE;
    assert(0 <= d < PAGE_SIZE);
    assert((start + b) / 4096 == page + k) by (nonlinear_arith)
        requires
            start + b == (page + k) * 4096 + d,
            0 <= d < 4096,
    ;
}

/// What is copied before the answer is valid is everything but its last word: a piece keeps
/// its place, loses nothing that stands before that word, and nothing behind it is copied.
pub proof fn payload_is_all_but_the_last_word(chunk: PinnedWriteChunk, b: int)
    requires
        chunk.result_offset < 56,
        chunk.result_offset + chunk.bytes <= 64,
    ensures
        payload_of(chunk).physical == chunk.physical,
        payload_of(chunk).result_offset == chunk.result_offset,
        chunk.result_offset <= b < chunk.result_offset + payload_of(chunk).bytes <==>
            chunk.result_offset <= b < chunk.result_offset + chunk.bytes && b < 56,
{
}

/// What flags mean: something has to be read, nothing is both written and executed, and the
/// protection allows writing or executing exactly if the flag says so.
pub proof fn flags_mean_what_they_say(flags: ProcessMapFlags)
    ensures
        flags_protection(flags) is Some <==> flags.read && !(flags.write && flags.execute),
        flags_protection(flags) matches Some(p) ==> (p is ReadWrite <==> flags.write) && (
        p is ReadExecute <==> flags.execute) && (p is ReadOnly <==> !flags.write
            && !flags.execute),
{
}

/// Where a process under construction can have memory: whole pages below the end of user
/// memory, all in the image's part or all in the stack's, with flags that mean something.
pub proof fn building_stays_in_one_part(
    user: UserSpace,
    vaddr: usize,
    len: usize,
    flags: ProcessMapFlags,
)
    requires
        user.wf(),
    ensures
        building_allowed(user, vaddr, len, flags) <==> {
            &&& len > 0 && vaddr % 4096 == 0 && len % 4096 == 0
            &&& !flags.unknown && flags.read && !(flags.write && flags.execute)
            &&& vaddr + len <= user.top - user.stack_bytes || (user.top - user.stack_bytes <= vaddr
                && vaddr + len <= user.top)
        },
{
}

} // verus!
