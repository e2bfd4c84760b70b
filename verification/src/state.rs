//! What a transactional memory holds, and how its operations change that.
use crate::bytes::{be_bytes, splice, with_section};
use crate::layout::{is_usable_page_count, lemma_usable_pages_in_file, DB_METAPAGE_SIZE};
use crate::metapage::{
    primary_offset, secondary_offset, secondary_slot, slot_allocator_len, slot_allocator_start,
    slot_state_end, slot_state_start, PageNumber, ALLOCATOR_STATE_DIRTY_OFFSET, PRIMARY_BIT_OFFSET,
    ROOT_PAGE_OFFSET,
};
use crate::opening::magic_number;
use crate::page_allocator::{state_size, with_page, without_page};
use vstd::prelude::*;

verus! {

/// What a [`TransactionalMemory`] holds.
#[verifier::ext_equal]
pub struct MemoryState {
    /// The bytes of the mapped file.
    pub bytes: Seq<u8>,
    /// The size of a page.
    pub page_size: int,
    /// How many pages the file holds.
    pub num_pages: int,
    /// Pages allocated since the last commit, in order.
    pub allocated_since_commit: Seq<PageNumber>,
    /// Pages freed since the last commit, in order.
    pub freed_since_commit: Seq<PageNumber>,
    /// The numbers of the pages that are open for writing.
    pub open_pages: Set<u64>,
}

/// All of `pages` are among the first `num_pages` pages.
pub open spec fn all_below(pages: Seq<PageNumber>, num_pages: int) -> bool {
    forall|i: int| 0 <= i < pages.len() ==> (#[trigger] pages[i]).0 < num_pages
}

impl MemoryState {
    /// The page count is that of the file, the metapage lies in the file, and
    /// only pages of the file were allocated or freed.
    pub open spec fn valid(self) -> bool {
        &&& DB_METAPAGE_SIZE <= self.page_size <= usize::MAX
        &&& DB_METAPAGE_SIZE <= self.bytes.len() <= usize::MAX
        &&& is_usable_page_count(self.bytes.len() as int, self.page_size, self.num_pages)
        &&& all_below(self.allocated_since_commit, self.num_pages)
        &&& all_below(self.freed_since_commit, self.num_pages)
    }
}

/// Where the bytes of a page start.
pub open spec fn page_start(page_number: PageNumber, page_size: int) -> int {
    (page_number.0 as usize) * page_size
}

/// Where the allocator state of the secondary slot starts.
pub open spec fn allocator_start(bytes: Seq<u8>) -> int {
    slot_state_start(secondary_slot(bytes))
}

/// Where the allocator state of the secondary slot ends.
pub open spec fn allocator_end(bytes: Seq<u8>) -> int {
    slot_state_end(secondary_slot(bytes))
}

/// The allocator state of the secondary slot.
pub open spec fn allocator_state(bytes: Seq<u8>) -> Seq<u8> {
    bytes.subrange(allocator_start(bytes), allocator_end(bytes))
}

/// The secondary slot names an allocator state that lies in the file.
pub open spec fn allocator_in_file(bytes: Seq<u8>) -> bool {
    let slot = secondary_slot(bytes);
    &&& slot_allocator_start(slot) + slot_allocator_len(slot) <= u64::MAX
    &&& allocator_start(bytes) <= allocator_end(bytes) <= bytes.len()
}

/// The secondary slot names an allocator state that lies in the file and is long
/// enough for `num_pages` pages.
pub open spec fn allocator_reachable(bytes: Seq<u8>, num_pages: int) -> bool {
    &&& allocator_in_file(bytes)
    &&& state_size(num_pages) <= allocator_end(bytes) - allocator_start(bytes)
}

/// An allocator state of `size` bytes has a byte for each of `pages`.
pub open spec fn recordable(pages: Seq<PageNumber>, size: int) -> bool {
    forall|i: int| 0 <= i < pages.len() ==> (#[trigger] pages[i]).0 / 8 < size
}

/// The secondary slot names an allocator state that lies in the file and has a byte
/// for each page that was allocated or freed since the last commit.
pub open spec fn replayable(state: MemoryState) -> bool {
    let size = allocator_end(state.bytes) - allocator_start(state.bytes);
    &&& allocator_in_file(state.bytes)
    &&& recordable(state.allocated_since_commit, size)
    &&& recordable(state.freed_since_commit, size)
}

/// `bytes` with the allocator state of the secondary slot replaced.
pub open spec fn with_allocator_state(bytes: Seq<u8>, state: Seq<u8>) -> Seq<u8> {
    splice(bytes, allocator_start(bytes), state)
}

/// `bytes` with the root page of the secondary slot replaced.
pub open spec fn with_secondary_root(bytes: Seq<u8>, root_page: PageNumber) -> Seq<u8> {
    splice(bytes, secondary_offset(bytes) + ROOT_PAGE_OFFSET, be_bytes(root_page.0))
}

/// `bytes` with the dirty flag of the secondary slot replaced.
pub open spec fn with_secondary_dirty(bytes: Seq<u8>, dirty: bool) -> Seq<u8> {
    bytes.update(
        secondary_offset(bytes) + ALLOCATOR_STATE_DIRTY_OFFSET,
        if dirty {
            1
        } else {
            0
        },
    )
}

/// `bytes` with the allocator state of the secondary slot marked dirty and a page
/// recorded in it as allocated.
pub open spec fn with_allocated_page(bytes: Seq<u8>, page_number: PageNumber) -> Seq<u8> {
    let marked = with_secondary_dirty(bytes, true);
    with_allocator_state(marked, with_page(allocator_state(marked), page_number.0))
}

/// `state` after the root page of the secondary slot was stored.
pub open spec fn root_set(state: MemoryState, root_page: PageNumber) -> MemoryState {
    MemoryState { bytes: with_secondary_root(state.bytes, root_page), ..state }
}

/// `state` after a page was recorded as allocated.
pub open spec fn page_allocated(state: MemoryState, page_number: PageNumber) -> MemoryState {
    MemoryState {
        bytes: with_allocated_page(state.bytes, page_number),
        allocated_since_commit: state.allocated_since_commit.push(page_number),
        ..state
    }
}

/// `state` after `contents` was left in a page and `open_pages` are the pages that
/// are open.
pub open spec fn page_written(
    state: MemoryState,
    page_number: PageNumber,
    contents: Seq<u8>,
    open_pages: Set<u64>,
) -> MemoryState {
    let start = page_start(page_number, state.page_size);
    MemoryState {
        bytes: with_section(state.bytes, start, start + state.page_size, contents),
        open_pages,
        ..state
    }
}

/// `state` after a page was freed.
pub open spec fn page_freed(state: MemoryState, page: PageNumber) -> MemoryState {
    MemoryState {
        bytes: with_allocator_state(
            state.bytes,
            without_page(allocator_state(state.bytes), page.0),
        ),
        freed_since_commit: state.freed_since_commit.push(page),
        ..state
    }
}

/// `state` after the allocator state of the secondary slot was marked clean.
pub open spec fn cleaned(state: MemoryState) -> MemoryState {
    MemoryState { bytes: with_secondary_dirty(state.bytes, false), ..state }
}

/// `state` with all of `pages` recorded as allocated.
pub open spec fn record_all(state: Seq<u8>, pages: Seq<PageNumber>) -> Seq<u8>
    decreases pages.len(),
{
    if pages.len() == 0 {
        state
    } else {
        with_page(record_all(state, pages.drop_last()), pages.last().0)
    }
}

/// `state` with all of `pages` recorded as free.
pub open spec fn free_all(state: Seq<u8>, pages: Seq<PageNumber>) -> Seq<u8>
    decreases pages.len(),
{
    if pages.len() == 0 {
        state
    } else {
        without_page(free_all(state, pages.drop_last()), pages.last().0)
    }
}

/// `state` after the allocator state of the secondary slot was brought up to
/// the pages allocated, and those freed, since the last commit.
pub open spec fn replayed(state: MemoryState) -> MemoryState {
    MemoryState {
        bytes: with_allocator_state(
            state.bytes,
            free_all(
                record_all(allocator_state(state.bytes), state.allocated_since_commit),
                state.freed_since_commit,
            ),
        ),
        allocated_since_commit: Seq::empty(),
        freed_since_commit: Seq::empty(),
        ..state
    }
}

/// `state` after the pages allocated since the last commit were freed, and those
/// freed were recorded as allocated.
pub open spec fn rolled_back(state: MemoryState) -> MemoryState {
    MemoryState {
        bytes: with_allocator_state(
            state.bytes,
            record_all(
                free_all(allocator_state(state.bytes), state.allocated_since_commit),
                state.freed_since_commit,
            ),
        ),
        allocated_since_commit: Seq::empty(),
        freed_since_commit: Seq::empty(),
        ..state
    }
}

/// `bytes` with the secondary slot marked clean and made the primary, and the
/// slot that was the primary marked dirty.
pub open spec fn switched(bytes: Seq<u8>) -> Seq<u8> {
    let turned = with_secondary_dirty(bytes, false).update(
        PRIMARY_BIT_OFFSET as int,
        if bytes[PRIMARY_BIT_OFFSET as int] == 0 {
            1
        } else {
            0
        },
    );
    with_secondary_dirty(turned, true)
}

/// What a commit needs next.
#[derive(Copy, Clone, Debug, PartialEq, Eq, Structural)]
pub enum CommitStep {
    /// The memory must be flushed, so that the pages are durable before they
    /// become visible.
    FlushPages,
    /// The slots were switched: the memory must be flushed again.
    FlushSwitch,
    /// Nothing: the commit is complete.
    Done,
    /// Nothing: a flush failed.
    Failed,
}

/// What a commit at `step` does after a flush, and what it needs next.
pub open spec fn commit_step(state: MemoryState, step: CommitStep, flushed: bool) -> (
    CommitStep,
    MemoryState,
) {
    if !flushed {
        (CommitStep::Failed, state)
    } else if step == CommitStep::FlushPages {
        (CommitStep::FlushSwitch, MemoryState { bytes: switched(state.bytes), ..state })
    } else {
        (CommitStep::Done, replayed(state))
    }
}

/// `bytes` with the magic number at the start.
pub open spec fn with_magic_number(bytes: Seq<u8>) -> Seq<u8> {
    splice(bytes, 0, magic_number())
}

/// A memory over `bytes` in which nothing was done yet.
pub open spec fn is_fresh(state: MemoryState, bytes: Seq<u8>, page_size: int) -> bool {
    &&& state.valid()
    &&& state.bytes == bytes
    &&& state.page_size == page_size
    &&& state.allocated_since_commit == Seq::<PageNumber>::empty()
    &&& state.freed_since_commit == Seq::<PageNumber>::empty()
    &&& state.open_pages == Set::<u64>::empty()
}

/// Recording pages does not change how long an allocator state is.
pub proof fn lemma_replay_length(state: Seq<u8>, pages: Seq<PageNumber>)
    requires
        recordable(pages, state.len() as int),
    ensures
        record_all(state, pages).len() == state.len(),
        free_all(state, pages).len() == state.len(),
    decreases pages.len(),
{
    if pages.len() > 0 {
        lemma_replay_length(state, pages.drop_last());
        assert(pages.last().0 / 8 < state.len());
    }
}

/// The dirty flag does not move the allocator state.
pub proof fn lemma_dirty_keeps_allocator_range(bytes: Seq<u8>, dirty: bool)
    requires
        DB_METAPAGE_SIZE <= bytes.len(),
    ensures
        secondary_offset(with_secondary_dirty(bytes, dirty)) == secondary_offset(bytes),
        primary_offset(with_secondary_dirty(bytes, dirty)) == primary_offset(bytes),
        allocator_start(with_secondary_dirty(bytes, dirty)) == allocator_start(bytes),
        allocator_end(with_secondary_dirty(bytes, dirty)) == allocator_end(bytes),
{
}

/// A page of the file lies in the file.
pub proof fn lemma_page_in_file(state: MemoryState, page_number: PageNumber)
    requires
        state.valid(),
        page_number.0 < state.num_pages,
    ensures
        page_start(page_number, state.page_size) == page_number.0 * state.page_size,
        0 <= page_start(page_number, state.page_size),
        page_start(page_number, state.page_size) + state.page_size <= state.num_pages
            * state.page_size,
        state.num_pages * state.page_size <= state.bytes.len(),
{
    lemma_usable_pages_in_file(state.bytes.len() as int, state.page_size, state.num_pages);
    assert(state.num_pages <= state.num_pages * state.page_size && 0 <= page_number.0
        * state.page_size && page_number.0 * state.page_size + state.page_size <= state.num_pages
        * state.page_size) by (nonlinear_arith)
        requires
            0 <= page_number.0 < state.num_pages,
            1 <= state.page_size,
    ;
}

} // verus!
