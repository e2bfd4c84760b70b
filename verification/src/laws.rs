//! What holds of each operation, and of opening and closing a file.
use crate::bytes::{be_bytes, be_value, lemma_be_value_of_splice, splice, zeros};
use crate::layout::{
    is_usable_page_count, lemma_usable_page_count_unique, lemma_usable_pages_in_file, pages_fit,
    DB_METAPAGE_SIZE,
};
use crate::memory::{opens_as, opens_with, Opening};
use crate::metapage::{
    primary_offset, primary_slot, secondary_offset, secondary_slot, slot_allocator_len,
    slot_allocator_start, slot_at, slot_dirty_byte, slot_root, slot_state_end, slot_state_start,
    PageNumber, ALLOCATOR_STATE_DIRTY_OFFSET, ALLOCATOR_STATE_LEN_OFFSET,
    ALLOCATOR_STATE_PTR_OFFSET, DB_METADATA_PAGE, MAGICNUMBER_SIZE, PRIMARY_BIT_OFFSET,
    ROOT_PAGE_OFFSET, TRANSACTION_0_OFFSET, TRANSACTION_1_OFFSET, TRANSACTION_SIZE,
    USED_METAPAGE_SIZE,
};
use crate::opening::{
    formatted, has_magic_number, initial_allocator_state, is_clean, magic_number, openable,
    opening_error, with_allocator_data, Error,
};
use crate::page_allocator::{
    is_allocated, is_first_free, law_record, lemma_with_page, lemma_without_page,
    lemma_zeros_all_free, state_size, with_page, without_page,
};
use crate::state::{
    all_below, allocator_end, allocator_in_file, allocator_reachable, allocator_start,
    allocator_state, cleaned, commit_step, free_all, is_fresh, lemma_dirty_keeps_allocator_range,
    lemma_page_in_file, lemma_replay_length, page_allocated, page_freed, page_start, page_written,
    record_all, recordable, replayable, replayed, rolled_back, root_set, switched,
    with_allocator_state, with_magic_number, with_secondary_dirty, CommitStep, MemoryState,
};
use vstd::prelude::*;

verus! {

/// What a slot says.
pub struct SlotContents {
    /// The root page, if there is one.
    pub root: Option<PageNumber>,
    /// Where the allocator state starts.
    pub allocator_start: u64,
    /// How long the allocator state is.
    pub allocator_len: u64,
    /// The dirty flag, as it is stored.
    pub dirty: u8,
}

/// What `slot` says.
pub open spec fn slot_contents(slot: Seq<u8>) -> SlotContents {
    SlotContents {
        root: slot_root(slot),
        allocator_start: slot_allocator_start(slot),
        allocator_len: slot_allocator_len(slot),
        dirty: slot_dirty_byte(slot),
    }
}

/// What the primary slot says.
pub open spec fn primary_contents(bytes: Seq<u8>) -> SlotContents {
    slot_contents(primary_slot(bytes))
}

/// What the secondary slot says.
pub open spec fn secondary_contents(bytes: Seq<u8>) -> SlotContents {
    slot_contents(secondary_slot(bytes))
}

/// The slot at `offset` names an allocator state that lies behind all that the
/// metapage uses and ends in the file.
pub open spec fn slot_in_place(bytes: Seq<u8>, offset: int) -> bool {
    let slot = slot_at(bytes, offset);
    &&& USED_METAPAGE_SIZE <= slot_allocator_start(slot)
    &&& slot_allocator_start(slot) + slot_allocator_len(slot) <= bytes.len()
}

/// Both slots name an allocator state that lies behind all that the metapage uses
/// and ends in the file.
pub open spec fn in_place(state: MemoryState) -> bool {
    &&& state.valid()
    &&& slot_in_place(state.bytes, TRANSACTION_0_OFFSET as int)
    &&& slot_in_place(state.bytes, TRANSACTION_1_OFFSET as int)
}

/// What every operation keeps from the opening of a new file on: the magic number
/// and a primary bit that names a slot are there, the primary slot is clean, and
/// the allocator states are in place.
pub open spec fn sound(state: MemoryState) -> bool {
    &&& in_place(state)
    &&& has_magic_number(state.bytes)
    &&& state.bytes[PRIMARY_BIT_OFFSET as int] <= 1
    &&& slot_dirty_byte(primary_slot(state.bytes)) == 0
}

/// A page does not overlap the allocator state of the slot at `offset`.
pub open spec fn page_clear_of(state: MemoryState, page: PageNumber, offset: int) -> bool {
    let start = page_start(page, state.page_size);
    let slot = slot_at(state.bytes, offset);
    start + state.page_size <= slot_state_start(slot) || slot_state_end(slot) <= start
}

/// A page does not overlap an allocator state.
pub open spec fn page_clear(state: MemoryState, page: PageNumber) -> bool {
    &&& page_clear_of(state, page, TRANSACTION_0_OFFSET as int)
    &&& page_clear_of(state, page, TRANSACTION_1_OFFSET as int)
}

/// The two allocator states do not overlap.
pub open spec fn states_apart(bytes: Seq<u8>) -> bool {
    let first = slot_at(bytes, TRANSACTION_0_OFFSET as int);
    let second = slot_at(bytes, TRANSACTION_1_OFFSET as int);
    slot_state_end(first) <= slot_state_start(second) || slot_state_end(second)
        <= slot_state_start(first)
}

/// The two allocator states do not overlap and have room for all pages.
pub open spec fn states_hold_all(state: MemoryState) -> bool {
    let first = slot_at(state.bytes, TRANSACTION_0_OFFSET as int);
    let second = slot_at(state.bytes, TRANSACTION_1_OFFSET as int);
    &&& states_apart(state.bytes)
    &&& state_size(state.num_pages) <= slot_allocator_len(first)
    &&& state_size(state.num_pages) <= slot_allocator_len(second)
}

/// The allocator states are in place, hold all pages, and overlap neither each
/// other nor a page.
pub open spec fn well_laid(state: MemoryState) -> bool {
    &&& in_place(state)
    &&& states_hold_all(state)
    &&& forall|page: PageNumber| page.0 < state.num_pages ==> #[trigger] page_clear(state, page)
}

/// Two memories have as many bytes and pages as each other, pages of one size, the
/// same bytes where the magic number goes, and the allocator states at the same
/// places.
pub open spec fn same_frame(a: MemoryState, b: MemoryState) -> bool {
    let first = TRANSACTION_0_OFFSET as int;
    let second = TRANSACTION_1_OFFSET as int;
    &&& a.bytes.len() == b.bytes.len()
    &&& a.page_size == b.page_size
    &&& a.num_pages == b.num_pages
    &&& a.bytes.subrange(0, MAGICNUMBER_SIZE as int) == b.bytes.subrange(
        0,
        MAGICNUMBER_SIZE as int,
    )
    &&& slot_allocator_start(slot_at(a.bytes, first)) == slot_allocator_start(
        slot_at(b.bytes, first),
    )
    &&& slot_allocator_len(slot_at(a.bytes, first)) == slot_allocator_len(slot_at(b.bytes, first))
    &&& slot_allocator_start(slot_at(a.bytes, second)) == slot_allocator_start(
        slot_at(b.bytes, second),
    )
    &&& slot_allocator_len(slot_at(a.bytes, second)) == slot_allocator_len(
        slot_at(b.bytes, second),
    )
}

/// The allocator state of the primary slot.
pub open spec fn primary_allocator_state(bytes: Seq<u8>) -> Seq<u8> {
    bytes.subrange(
        slot_state_start(primary_slot(bytes)),
        slot_state_end(primary_slot(bytes)),
    )
}

/// Two allocator states record the same pages as allocated.
pub open spec fn same_pages(a: Seq<u8>, b: Seq<u8>, num_pages: int) -> bool {
    forall|page: u64|
        page < num_pages ==> #[trigger] is_allocated(a, page) == is_allocated(b, page)
}

/// Nothing was allocated or freed since the last commit, and both slots record the
/// same pages.
pub open spec fn settled(state: MemoryState) -> bool {
    &&& state.allocated_since_commit == Seq::<PageNumber>::empty()
    &&& state.freed_since_commit == Seq::<PageNumber>::empty()
    &&& same_pages(
        allocator_state(state.bytes),
        primary_allocator_state(state.bytes),
        state.num_pages,
    )
}

/// The secondary slot records what the primary slot will once the pages allocated
/// since the last commit are added to it and those freed are taken out.
pub open spec fn commit_agrees(state: MemoryState) -> bool {
    forall|page: u64|
        page < state.num_pages ==> (#[trigger] is_allocated(allocator_state(state.bytes), page)
            <==> !state.freed_since_commit.contains(PageNumber(page)) && (
        state.allocated_since_commit.contains(PageNumber(page)) || is_allocated(
            primary_allocator_state(state.bytes),
            page,
        )))
}

/// The primary slot records what the secondary slot will once the pages allocated
/// since the last commit are taken out of it and those freed are added.
pub open spec fn rollback_restores(state: MemoryState) -> bool {
    forall|page: u64|
        page < state.num_pages ==> (#[trigger] is_allocated(
            primary_allocator_state(state.bytes),
            page,
        ) <==> state.freed_since_commit.contains(PageNumber(page)) || (
        !state.allocated_since_commit.contains(PageNumber(page)) && is_allocated(
            allocator_state(state.bytes),
            page,
        )))
}

/// The bytes of a page.
pub open spec fn page_contents(state: MemoryState, page_number: PageNumber) -> Seq<u8> {
    state.bytes.subrange(
        page_start(page_number, state.page_size),
        page_start(page_number, state.page_size) + state.page_size,
    )
}

/// Every page but the metapage that overlaps no allocator state holds in `after`
/// what it held in `before`.
pub open spec fn pages_kept(before: MemoryState, after: MemoryState) -> bool {
    forall|page: PageNumber|
        1 <= page.0 < before.num_pages && page_clear(before, page) ==> #[trigger] page_contents(
            after,
            page,
        ) == page_contents(before, page)
}

/// `a` and `b` are as long as each other and hold the same bytes from `start` up
/// to `end`.
pub open spec fn agree(a: Seq<u8>, b: Seq<u8>, start: int, end: int) -> bool {
    &&& a.len() == b.len()
    &&& forall|i: int| start <= i < end ==> #[trigger] a[i] == b[i]
}

/// Files that agree on what the metapage uses have slots that say the same.
proof fn lemma_same_header(a: Seq<u8>, b: Seq<u8>)
    requires
        DB_METAPAGE_SIZE <= a.len(),
        agree(a, b, 0, USED_METAPAGE_SIZE as int),
    ensures
        a[PRIMARY_BIT_OFFSET as int] == b[PRIMARY_BIT_OFFSET as int],
        slot_contents(slot_at(a, TRANSACTION_0_OFFSET as int)) == slot_contents(
            slot_at(b, TRANSACTION_0_OFFSET as int),
        ),
        slot_contents(slot_at(a, TRANSACTION_1_OFFSET as int)) == slot_contents(
            slot_at(b, TRANSACTION_1_OFFSET as int),
        ),
        a.subrange(0, MAGICNUMBER_SIZE as int) == b.subrange(0, MAGICNUMBER_SIZE as int),
{
    lemma_same_slot(a, b, TRANSACTION_0_OFFSET as int);
    lemma_same_slot(a, b, TRANSACTION_1_OFFSET as int);
    assert(a.subrange(0, MAGICNUMBER_SIZE as int) =~= b.subrange(0, MAGICNUMBER_SIZE as int));
}

/// Files that agree on what a slot uses have slots that say the same.
proof fn lemma_same_slot(a: Seq<u8>, b: Seq<u8>, offset: int)
    requires
        0 <= offset,
        offset + TRANSACTION_SIZE <= a.len(),
        agree(a, b, offset, offset + ALLOCATOR_STATE_DIRTY_OFFSET + 1),
    ensures
        slot_contents(slot_at(a, offset)) == slot_contents(slot_at(b, offset)),
{
    let s = slot_at(a, offset);
    let t = slot_at(b, offset);
    assert(forall|i: int| 0 <= i <= ALLOCATOR_STATE_DIRTY_OFFSET ==> #[trigger] s[i] == t[i]) by {
        assert forall|i: int| 0 <= i <= ALLOCATOR_STATE_DIRTY_OFFSET implies #[trigger] s[i]
            == t[i] by {
            assert(a[offset + i] == b[offset + i]);
        }
    }
}

/// Every page but the metapage lies behind the metapage.
proof fn lemma_page_behind_metapage(state: MemoryState, page: PageNumber)
    requires
        state.valid(),
        1 <= page.0 < state.num_pages,
    ensures
        DB_METAPAGE_SIZE <= page_start(page, state.page_size),
        page_start(page, state.page_size) + state.page_size <= state.num_pages * state.page_size,
        state.num_pages * state.page_size <= state.bytes.len(),
{
    lemma_page_in_file(state, page);
    assert(state.page_size <= page.0 * state.page_size) by (nonlinear_arith)
        requires
            1 <= page.0,
            0 <= state.page_size,
    ;
}

/// Two pages do not overlap.
pub proof fn law_pages_are_apart(state: MemoryState, a: PageNumber, b: PageNumber)
    requires
        state.valid(),
        a.0 < state.num_pages,
        b.0 < state.num_pages,
        a != b,
    ensures
        page_start(a, state.page_size) + state.page_size <= page_start(b, state.page_size)
            || page_start(b, state.page_size) + state.page_size <= page_start(a, state.page_size),
{
    lemma_page_in_file(state, a);
    lemma_page_in_file(state, b);
    let size = state.page_size;
    if a.0 < b.0 {
        assert(a.0 * size + size <= b.0 * size) by (nonlinear_arith)
            requires
                a.0 < b.0,
                0 <= size,
        ;
    } else {
        assert(b.0 * size + size <= a.0 * size) by (nonlinear_arith)
            requires
                b.0 < a.0,
                0 <= size,
        ;
    }
}

/// Where only what the metapage uses changed, the allocator states and the pages
/// are the same.
proof fn lemma_header_changed(before: MemoryState, after: MemoryState)
    requires
        in_place(before),
        after.valid(),
        same_frame(after, before),
        agree(after.bytes, before.bytes, USED_METAPAGE_SIZE as int, before.bytes.len() as int),
    ensures
        in_place(after),
        ({
            let slot = slot_at(before.bytes, TRANSACTION_0_OFFSET as int);
            after.bytes.subrange(slot_state_start(slot), slot_state_end(slot))
                == before.bytes.subrange(slot_state_start(slot), slot_state_end(slot))
        }),
        ({
            let slot = slot_at(before.bytes, TRANSACTION_1_OFFSET as int);
            after.bytes.subrange(slot_state_start(slot), slot_state_end(slot))
                == before.bytes.subrange(slot_state_start(slot), slot_state_end(slot))
        }),
        forall|page: PageNumber|
            1 <= page.0 < before.num_pages ==> #[trigger] page_contents(after, page)
                == page_contents(before, page),
{
    let slot = slot_at(before.bytes, TRANSACTION_0_OFFSET as int);
    assert(after.bytes.subrange(slot_state_start(slot), slot_state_end(slot))
        =~= before.bytes.subrange(slot_state_start(slot), slot_state_end(slot)));
    let slot = slot_at(before.bytes, TRANSACTION_1_OFFSET as int);
    assert(after.bytes.subrange(slot_state_start(slot), slot_state_end(slot))
        =~= before.bytes.subrange(slot_state_start(slot), slot_state_end(slot)));
    assert forall|page: PageNumber| 1 <= page.0 < before.num_pages implies #[trigger] page_contents(
        after,
        page,
    ) == page_contents(before, page) by {
        lemma_page_behind_metapage(before, page);
        assert(page_contents(after, page) =~= page_contents(before, page));
    }
}

/// The allocator state of the secondary slot was replaced by one of the same
/// length: nothing else changed.
proof fn lemma_state_replaced(before: MemoryState, after: MemoryState, replaced: Seq<u8>)
    requires
        in_place(before),
        after.valid(),
        replaced.len() == allocator_state(before.bytes).len(),
        after.bytes == splice(before.bytes, allocator_start(before.bytes), replaced),
        after.page_size == before.page_size,
        after.num_pages == before.num_pages,
    ensures
        in_place(after),
        same_frame(after, before),
        after.bytes[PRIMARY_BIT_OFFSET as int] == before.bytes[PRIMARY_BIT_OFFSET as int],
        primary_contents(after.bytes) == primary_contents(before.bytes),
        secondary_contents(after.bytes) == secondary_contents(before.bytes),
        allocator_state(after.bytes) == replaced,
        states_apart(before.bytes) ==> primary_allocator_state(after.bytes)
            == primary_allocator_state(before.bytes),
        pages_kept(before, after),
{
    assert(allocator_state(before.bytes).len() == allocator_end(before.bytes) - allocator_start(
        before.bytes,
    ));
    lemma_same_header(after.bytes, before.bytes);
    assert(allocator_state(after.bytes) =~= replaced);
    if states_apart(before.bytes) {
        assert(primary_allocator_state(after.bytes) =~= primary_allocator_state(before.bytes));
    }
    assert forall|page: PageNumber|
        1 <= page.0 < before.num_pages && page_clear(
            before,
            page,
        ) implies #[trigger] page_contents(after, page) == page_contents(before, page) by {
        lemma_page_behind_metapage(before, page);
        assert(page_contents(after, page) =~= page_contents(before, page));
    }
}

/// Which pages are allocated after pages were recorded as allocated.
proof fn lemma_record_all(state: Seq<u8>, pages: Seq<PageNumber>, page: u64)
    requires
        recordable(pages, state.len() as int),
        page / 8 < state.len(),
    ensures
        is_allocated(record_all(state, pages), page) <==> pages.contains(PageNumber(page))
            || is_allocated(state, page),
    decreases pages.len(),
{
    if pages.len() > 0 {
        let rest = pages.drop_last();
        let last = pages.last();
        lemma_record_all(state, rest, page);
        lemma_replay_length(state, rest);
        assert(last.0 / 8 < state.len());
        lemma_with_page(record_all(state, rest), last.0, page);
        lemma_contains_last(pages, PageNumber(page));
    }
}

/// Which pages are allocated after pages were recorded as free.
proof fn lemma_free_all(state: Seq<u8>, pages: Seq<PageNumber>, page: u64)
    requires
        recordable(pages, state.len() as int),
        page / 8 < state.len(),
    ensures
        is_allocated(free_all(state, pages), page) <==> !pages.contains(PageNumber(page))
            && is_allocated(state, page),
    decreases pages.len(),
{
    if pages.len() > 0 {
        let rest = pages.drop_last();
        let last = pages.last();
        lemma_free_all(state, rest, page);
        lemma_replay_length(state, rest);
        assert(last.0 / 8 < state.len());
        lemma_without_page(free_all(state, rest), last.0, page);
        lemma_contains_last(pages, PageNumber(page));
    }
}

/// A sequence contains its last item and what the rest contains.
proof fn lemma_contains_last(pages: Seq<PageNumber>, page: PageNumber)
    requires
        pages.len() > 0,
    ensures
        pages.contains(page) <==> page == pages.last() || pages.drop_last().contains(page),
{
    assert(pages =~= pages.drop_last().push(pages.last()));
    lemma_contains_push(pages.drop_last(), pages.last(), page);
}

/// A sequence that grew contains the new item and what it contained.
pub proof fn lemma_contains_push(pages: Seq<PageNumber>, last: PageNumber, page: PageNumber)
    ensures
        pages.push(last).contains(page) <==> page == last || pages.contains(page),
{
    let grown = pages.push(last);
    assert(grown[pages.len() as int] == last);
    if pages.contains(page) {
        let i = choose|i: int| 0 <= i < pages.len() && pages[i] == page;
        assert(grown[i] == page);
    }
    if grown.contains(page) {
        let i = choose|i: int| 0 <= i < grown.len() && grown[i] == page;
        if i < pages.len() {
            assert(pages[i] == page);
        }
    }
}

/// The two slots are apart: neither is both the primary and the secondary.
pub proof fn law_slots_are_apart(bytes: Seq<u8>)
    ensures
        primary_offset(bytes) != secondary_offset(bytes),
        primary_offset(bytes) + TRANSACTION_SIZE <= secondary_offset(bytes) || secondary_offset(
            bytes,
        ) + TRANSACTION_SIZE <= primary_offset(bytes),
{
}

/// The allocator data that is stored in a slot is read back from it, and neither
/// the root page nor the dirty flag changes.
pub proof fn law_allocator_data_is_read_back(slot: Seq<u8>, start: usize, len: usize)
    requires
        slot.len() == TRANSACTION_SIZE,
    ensures
        ({
            let stored = splice(
                splice(slot, ALLOCATOR_STATE_PTR_OFFSET as int, be_bytes(start as u64)),
                ALLOCATOR_STATE_LEN_OFFSET as int,
                be_bytes(len as u64),
            );
            &&& slot_allocator_start(stored) == start
            &&& slot_allocator_len(stored) == len
            &&& slot_state_start(stored) == start
            &&& start + len <= usize::MAX ==> slot_state_end(stored) == start + len
            &&& slot_root(stored) == slot_root(slot)
            &&& slot_dirty_byte(stored) == slot_dirty_byte(slot)
        }),
{
    let first = splice(slot, ALLOCATOR_STATE_PTR_OFFSET as int, be_bytes(start as u64));
    lemma_be_value_of_splice(slot, ALLOCATOR_STATE_PTR_OFFSET as int, start as u64);
    lemma_be_value_of_splice(first, ALLOCATOR_STATE_LEN_OFFSET as int, len as u64);
}

/// The root page that a stored number names: zero stands for none.
pub open spec fn root_of(root_page: PageNumber) -> Option<PageNumber> {
    if root_page.0 == 0 {
        None
    } else {
        Some(root_page)
    }
}

/// The root page that was stored is the one the secondary slot names, with zero
/// standing for none. Nothing else that the slots say changes, and neither does
/// what is allocated nor the contents of a page.
pub proof fn law_root_is_read_back(state: MemoryState, root_page: PageNumber)
    requires
        in_place(state),
    ensures
        ({
            let after = root_set(state, root_page);
            &&& in_place(after)
            &&& same_frame(after, state)
            &&& after.bytes[PRIMARY_BIT_OFFSET as int] == state.bytes[PRIMARY_BIT_OFFSET as int]
            &&& primary_contents(after.bytes) == primary_contents(state.bytes)
            &&& secondary_contents(after.bytes) == (SlotContents {
                root: root_of(root_page),
                ..secondary_contents(state.bytes)
            })
            &&& allocator_state(after.bytes) == allocator_state(state.bytes)
            &&& primary_allocator_state(after.bytes) == primary_allocator_state(state.bytes)
            &&& forall|page: PageNumber|
                1 <= page.0 < state.num_pages ==> #[trigger] page_contents(after, page)
                    == page_contents(state, page)
            &&& commit_agrees(state) <==> commit_agrees(after)
            &&& rollback_restores(state) <==> rollback_restores(after)
        }),
{
    let after = root_set(state, root_page);
    let slot = secondary_slot(state.bytes);
    lemma_be_value_of_splice(slot, ROOT_PAGE_OFFSET as int, root_page.0);
    assert(secondary_slot(after.bytes) =~= splice(
        slot,
        ROOT_PAGE_OFFSET as int,
        be_bytes(root_page.0),
    ));
    assert(primary_slot(after.bytes) =~= primary_slot(state.bytes));
    assert(after.bytes.subrange(0, MAGICNUMBER_SIZE as int) =~= state.bytes.subrange(
        0,
        MAGICNUMBER_SIZE as int,
    ));
    assert(secondary_contents(after.bytes) == (SlotContents {
        root: root_of(root_page),
        ..secondary_contents(state.bytes)
    }));
    assert(same_frame(after, state));
    lemma_header_changed(state, after);
    assert(allocator_state(after.bytes) == allocator_state(state.bytes));
    assert(primary_allocator_state(after.bytes) == primary_allocator_state(state.bytes));
}

/// Storing the dirty flag of the secondary slot changes nothing else that the slots
/// say, nor what is allocated, nor the contents of a page.
pub proof fn law_dirty_flag_is_read_back(state: MemoryState, dirty: bool)
    requires
        in_place(state),
    ensures
        ({
            let after = MemoryState { bytes: with_secondary_dirty(state.bytes, dirty), ..state };
            &&& in_place(after)
            &&& same_frame(after, state)
            &&& after.bytes[PRIMARY_BIT_OFFSET as int] == state.bytes[PRIMARY_BIT_OFFSET as int]
            &&& primary_contents(after.bytes) == primary_contents(state.bytes)
            &&& secondary_contents(after.bytes) == (SlotContents {
                dirty: if dirty {
                    1
                } else {
                    0
                },
                ..secondary_contents(state.bytes)
            })
            &&& allocator_state(after.bytes) == allocator_state(state.bytes)
            &&& primary_allocator_state(after.bytes) == primary_allocator_state(state.bytes)
            &&& forall|page: PageNumber|
                1 <= page.0 < state.num_pages ==> #[trigger] page_contents(after, page)
                    == page_contents(state, page)
        }),
{
    let after = MemoryState { bytes: with_secondary_dirty(state.bytes, dirty), ..state };
    let flag: u8 = if dirty {
        1
    } else {
        0
    };
    assert(secondary_slot(after.bytes) =~= secondary_slot(state.bytes).update(
        ALLOCATOR_STATE_DIRTY_OFFSET as int,
        flag,
    ));
    assert(primary_slot(after.bytes) =~= primary_slot(state.bytes));
    assert(after.bytes.subrange(0, MAGICNUMBER_SIZE as int) =~= state.bytes.subrange(
        0,
        MAGICNUMBER_SIZE as int,
    ));
    lemma_header_changed(state, after);
}

/// A page that was written holds what was written, and the other pages hold what
/// they held. What the slots say stays; so does what is allocated, if the page
/// overlaps no allocator state.
#[verifier::rlimit(30)]
pub proof fn law_page_is_read_back(
    state: MemoryState,
    page_number: PageNumber,
    contents: Seq<u8>,
    open_pages: Set<u64>,
)
    requires
        in_place(state),
        1 <= page_number.0 < state.num_pages,
        contents.len() == state.page_size,
    ensures
        ({
            let after = page_written(state, page_number, contents, open_pages);
            &&& in_place(after)
            &&& same_frame(after, state)
            &&& page_contents(after, page_number) == contents
            &&& forall|page: PageNumber|
                page.0 < state.num_pages && page != page_number ==> #[trigger] page_contents(
                    after,
                    page,
                ) == page_contents(state, page)
            &&& after.bytes[PRIMARY_BIT_OFFSET as int] == state.bytes[PRIMARY_BIT_OFFSET as int]
            &&& primary_contents(after.bytes) == primary_contents(state.bytes)
            &&& secondary_contents(after.bytes) == secondary_contents(state.bytes)
            &&& page_clear(state, page_number) ==> allocator_state(after.bytes) == allocator_state(
                state.bytes,
            )
            &&& page_clear(state, page_number) ==> primary_allocator_state(after.bytes)
                == primary_allocator_state(state.bytes)
            &&& page_clear(state, page_number) ==> (commit_agrees(state) <==> commit_agrees(after))
            &&& page_clear(state, page_number) ==> (rollback_restores(state)
                <==> rollback_restores(after))
        }),
{
    let after = page_written(state, page_number, contents, open_pages);
    let start = page_start(page_number, state.page_size);
    lemma_page_behind_metapage(state, page_number);
    assert(after.bytes.len() == state.bytes.len());
    assert(after.bytes =~= splice(state.bytes, start, contents));
    assert(page_contents(after, page_number) =~= contents);
    assert forall|page: PageNumber|
        page.0 < state.num_pages && page != page_number implies #[trigger] page_contents(
        after,
        page,
    ) == page_contents(state, page) by {
        lemma_page_in_file(state, page);
        law_pages_are_apart(state, page, page_number);
        assert(page_contents(after, page) =~= page_contents(state, page));
    }
    lemma_same_header(after.bytes, state.bytes);
    if page_clear(state, page_number) {
        assert(allocator_state(after.bytes) =~= allocator_state(state.bytes));
        assert(primary_allocator_state(after.bytes) =~= primary_allocator_state(state.bytes));
    }
}

/// What recording a page as allocated changes, before the page is written.
proof fn lemma_page_allocated(state: MemoryState, page_number: PageNumber)
    requires
        in_place(state),
        page_number.0 < state.num_pages,
        page_number.0 / 8 < allocator_end(state.bytes) - allocator_start(state.bytes),
    ensures
        ({
            let after = page_allocated(state, page_number);
            &&& in_place(after)
            &&& same_frame(after, state)
            &&& allocator_state(with_secondary_dirty(state.bytes, true)) == allocator_state(
                state.bytes,
            )
            &&& allocator_state(after.bytes) == with_page(
                allocator_state(state.bytes),
                page_number.0,
            )
            &&& states_apart(state.bytes) ==> primary_allocator_state(after.bytes)
                == primary_allocator_state(state.bytes)
            &&& after.bytes[PRIMARY_BIT_OFFSET as int] == state.bytes[PRIMARY_BIT_OFFSET as int]
            &&& primary_contents(after.bytes) == primary_contents(state.bytes)
            &&& secondary_contents(after.bytes) == (SlotContents {
                dirty: 1,
                ..secondary_contents(state.bytes)
            })
            &&& pages_kept(state, after)
        }),
{
    let bytes = state.bytes;
    let marked = MemoryState { bytes: with_secondary_dirty(bytes, true), ..state };
    let after = page_allocated(state, page_number);
    law_dirty_flag_is_read_back(state, true);
    assert(page_number.0 / 8 < allocator_state(bytes).len());
    assert(after.valid());
    lemma_state_replaced(marked, after, with_page(allocator_state(bytes), page_number.0));
    assert forall|page: PageNumber|
        1 <= page.0 < state.num_pages && page_clear(state, page) implies #[trigger] page_contents(
        after,
        page,
    ) == page_contents(state, page) by {
        assert(page_clear(marked, page));
        assert(page_contents(after, page) == page_contents(marked, page));
    }
}

/// A page that is allocated was the lowest free one. It holds what was left in it
/// then, and the secondary slot is dirty from then on. If the page overlaps no
/// allocator state it is recorded as allocated, in the secondary slot alone. What
/// else the slots say stays, and so do the other pages. What a rollback restores is
/// kept, and so is what a commit agrees on, unless the page was freed since the last
/// commit.
pub proof fn law_allocate(
    state: MemoryState,
    page_number: PageNumber,
    contents: Seq<u8>,
    open_pages: Set<u64>,
)
    requires
        in_place(state),
        allocator_reachable(state.bytes, state.num_pages),
        is_first_free(
            allocator_state(with_secondary_dirty(state.bytes, true)),
            state.num_pages,
            page_number.0,
        ),
        page_number.0 != DB_METADATA_PAGE,
        contents.len() == state.page_size,
    ensures
        ({
            let after = page_written(
                page_allocated(state, page_number),
                page_number,
                contents,
                open_pages,
            );
            let clear = page_clear(state, page_number);
            &&& in_place(after)
            &&& same_frame(after, state)
            &&& is_first_free(allocator_state(state.bytes), state.num_pages, page_number.0)
            &&& clear ==> allocator_state(after.bytes) == with_page(
                allocator_state(state.bytes),
                page_number.0,
            )
            &&& clear ==> forall|page: u64|
                page < state.num_pages ==> (#[trigger] is_allocated(
                    allocator_state(after.bytes),
                    page,
                ) <==> page == page_number.0 || is_allocated(allocator_state(state.bytes), page))
            &&& clear && states_apart(state.bytes) ==> primary_allocator_state(after.bytes)
                == primary_allocator_state(state.bytes)
            &&& after.bytes[PRIMARY_BIT_OFFSET as int] == state.bytes[PRIMARY_BIT_OFFSET as int]
            &&& primary_contents(after.bytes) == primary_contents(state.bytes)
            &&& secondary_contents(after.bytes) == (SlotContents {
                dirty: 1,
                ..secondary_contents(state.bytes)
            })
            &&& page_contents(after, page_number) == contents
            &&& forall|page: PageNumber|
                1 <= page.0 < state.num_pages && page != page_number && page_clear(state, page)
                    ==> #[trigger] page_contents(after, page) == page_contents(state, page)
            &&& clear && states_apart(state.bytes) && rollback_restores(state)
                ==> rollback_restores(after)
            &&& clear && states_apart(state.bytes) && commit_agrees(state)
                && !state.freed_since_commit.contains(page_number) ==> commit_agrees(after)
        }),
{
    let bytes = state.bytes;
    let recorded = page_allocated(state, page_number);
    let after = page_written(recorded, page_number, contents, open_pages);
    lemma_page_allocated(state, page_number);
    law_page_is_read_back(recorded, page_number, contents, open_pages);
    assert(page_clear(recorded, page_number) == page_clear(state, page_number));
    assert forall|page: PageNumber|
        1 <= page.0 < state.num_pages && page != page_number && page_clear(
            state,
            page,
        ) implies #[trigger] page_contents(after, page) == page_contents(state, page) by {
        assert(page_contents(after, page) == page_contents(recorded, page));
    }
    if page_clear(state, page_number) {
        assert forall|page: u64| page < state.num_pages implies (#[trigger] is_allocated(
            allocator_state(after.bytes),
            page,
        ) <==> page == page_number.0 || is_allocated(allocator_state(bytes), page)) by {
            lemma_with_page(allocator_state(bytes), page_number.0, page);
        }
        if states_apart(bytes) {
            lemma_allocation_recorded(state, after, page_number);
        }
    }
}

/// What a rollback restores, and what a commit agrees on, after a page was recorded
/// as allocated.
proof fn lemma_allocation_recorded(before: MemoryState, after: MemoryState, page_number: PageNumber)
    requires
        after.num_pages == before.num_pages,
        after.allocated_since_commit == before.allocated_since_commit.push(page_number),
        after.freed_since_commit == before.freed_since_commit,
        primary_allocator_state(after.bytes) == primary_allocator_state(before.bytes),
        !is_allocated(allocator_state(before.bytes), page_number.0),
        forall|page: u64|
            page < before.num_pages ==> (#[trigger] is_allocated(
                allocator_state(after.bytes),
                page,
            ) <==> page == page_number.0 || is_allocated(allocator_state(before.bytes), page)),
    ensures
        rollback_restores(before) ==> rollback_restores(after),
        commit_agrees(before) && !before.freed_since_commit.contains(page_number)
            ==> commit_agrees(after),
{
    assert forall|page: u64|
        rollback_restores(before) && page < before.num_pages implies (#[trigger] is_allocated(
        primary_allocator_state(after.bytes),
        page,
    ) <==> after.freed_since_commit.contains(PageNumber(page)) || (
    !after.allocated_since_commit.contains(PageNumber(page)) && is_allocated(
        allocator_state(after.bytes),
        page,
    ))) by {
        lemma_contains_push(before.allocated_since_commit, page_number, PageNumber(page));
        assert(is_allocated(primary_allocator_state(before.bytes), page) == is_allocated(
            primary_allocator_state(after.bytes),
            page,
        ));
        assert(is_allocated(allocator_state(after.bytes), page) <==> page == page_number.0
            || is_allocated(allocator_state(before.bytes), page));
    }
    assert forall|page: u64|
        commit_agrees(before) && !before.freed_since_commit.contains(page_number) && page
            < before.num_pages implies (#[trigger] is_allocated(allocator_state(after.bytes), page)
        <==> !after.freed_since_commit.contains(PageNumber(page)) && (
    after.allocated_since_commit.contains(PageNumber(page)) || is_allocated(
        primary_allocator_state(after.bytes),
        page,
    ))) by {
        lemma_contains_push(before.allocated_since_commit, page_number, PageNumber(page));
        assert(is_allocated(allocator_state(before.bytes), page) || page == page_number.0
            || !is_allocated(allocator_state(after.bytes), page));
    }
}

/// A page that is freed is recorded as free, in the secondary slot alone. What the
/// slots say stays, and so do the contents of the pages. What a commit agrees on is
/// kept, and so is what a rollback restores, if the page was allocated at the last
/// commit.
pub proof fn law_free(state: MemoryState, freed: PageNumber)
    requires
        in_place(state),
        freed.0 < state.num_pages,
        freed.0 / 8 < allocator_end(state.bytes) - allocator_start(state.bytes),
    ensures
        ({
            let after = page_freed(state, freed);
            &&& in_place(after)
            &&& same_frame(after, state)
            &&& allocator_state(after.bytes) == without_page(allocator_state(state.bytes), freed.0)
            &&& forall|page: u64|
                page / 8 < allocator_state(state.bytes).len() ==> (#[trigger] is_allocated(
                    allocator_state(after.bytes),
                    page,
                ) <==> page != freed.0 && is_allocated(allocator_state(state.bytes), page))
            &&& after.bytes[PRIMARY_BIT_OFFSET as int] == state.bytes[PRIMARY_BIT_OFFSET as int]
            &&& primary_contents(after.bytes) == primary_contents(state.bytes)
            &&& secondary_contents(after.bytes) == secondary_contents(state.bytes)
            &&& states_apart(state.bytes) ==> primary_allocator_state(after.bytes)
                == primary_allocator_state(state.bytes)
            &&& pages_kept(state, after)
            &&& states_hold_all(state) && commit_agrees(state) ==> commit_agrees(after)
            &&& states_hold_all(state) && rollback_restores(state) && is_allocated(
                primary_allocator_state(state.bytes),
                freed.0,
            ) ==> rollback_restores(after)
        }),
{
    let after = page_freed(state, freed);
    let bytes = state.bytes;
    assert(after.valid());
    lemma_state_replaced(state, after, without_page(allocator_state(bytes), freed.0));
    assert forall|page: u64|
        page / 8 < allocator_state(bytes).len() implies (#[trigger] is_allocated(
        allocator_state(after.bytes),
        page,
    ) <==> page != freed.0 && is_allocated(allocator_state(bytes), page)) by {
        lemma_without_page(allocator_state(bytes), freed.0, page);
    }
    if states_hold_all(state) && commit_agrees(state) {
        assert forall|page: u64| page < state.num_pages implies (#[trigger] is_allocated(
            allocator_state(after.bytes),
            page,
        ) <==> !after.freed_since_commit.contains(PageNumber(page)) && (
        after.allocated_since_commit.contains(PageNumber(page)) || is_allocated(
            primary_allocator_state(after.bytes),
            page,
        ))) by {
            lemma_contains_push(state.freed_since_commit, freed, PageNumber(page));
            assert(page / 8 < allocator_state(bytes).len());
            assert(is_allocated(allocator_state(bytes), page) == is_allocated(
                allocator_state(state.bytes),
                page,
            ));
        }
    }
    if states_hold_all(state) && rollback_restores(state) && is_allocated(
        primary_allocator_state(state.bytes),
        freed.0,
    ) {
        assert forall|page: u64| page < state.num_pages implies (#[trigger] is_allocated(
            primary_allocator_state(after.bytes),
            page,
        ) <==> after.freed_since_commit.contains(PageNumber(page)) || (
        !after.allocated_since_commit.contains(PageNumber(page)) && is_allocated(
            allocator_state(after.bytes),
            page,
        ))) by {
            lemma_contains_push(state.freed_since_commit, freed, PageNumber(page));
            assert(page / 8 < allocator_state(bytes).len());
            assert(is_allocated(primary_allocator_state(state.bytes), page) == is_allocated(
                primary_allocator_state(after.bytes),
                page,
            ));
            assert(is_allocated(allocator_state(after.bytes), page) <==> page != freed.0
                && is_allocated(allocator_state(bytes), page));
        }
    }
}

/// A rollback touches the allocator state of the secondary slot and nothing else:
/// the pages allocated since the last commit are free in it and those freed are
/// allocated. Where it restores, both slots record the same pages afterwards.
pub proof fn law_rollback(state: MemoryState)
    requires
        in_place(state),
        replayable(state),
    ensures
        ({
            let after = rolled_back(state);
            &&& in_place(after)
            &&& same_frame(after, state)
            &&& after.bytes[PRIMARY_BIT_OFFSET as int] == state.bytes[PRIMARY_BIT_OFFSET as int]
            &&& primary_contents(after.bytes) == primary_contents(state.bytes)
            &&& secondary_contents(after.bytes) == secondary_contents(state.bytes)
            &&& states_apart(state.bytes) ==> primary_allocator_state(after.bytes)
                == primary_allocator_state(state.bytes)
            &&& pages_kept(state, after)
            &&& forall|page: u64|
                page / 8 < allocator_state(state.bytes).len() ==> (#[trigger] is_allocated(
                    allocator_state(after.bytes),
                    page,
                ) <==> state.freed_since_commit.contains(PageNumber(page)) || (
                !state.allocated_since_commit.contains(PageNumber(page)) && is_allocated(
                    allocator_state(state.bytes),
                    page,
                )))
            &&& states_hold_all(state) && rollback_restores(state) ==> settled(after)
        }),
{
    let after = rolled_back(state);
    let working = allocator_state(state.bytes);
    let taken_out = free_all(working, state.allocated_since_commit);
    lemma_replay_length(working, state.allocated_since_commit);
    lemma_replay_length(taken_out, state.freed_since_commit);
    assert(after.valid());
    lemma_state_replaced(state, after, record_all(taken_out, state.freed_since_commit));
    assert forall|page: u64| page / 8 < working.len() implies (#[trigger] is_allocated(
        allocator_state(after.bytes),
        page,
    ) <==> state.freed_since_commit.contains(PageNumber(page)) || (
    !state.allocated_since_commit.contains(PageNumber(page)) && is_allocated(working, page))) by {
        lemma_free_all(working, state.allocated_since_commit, page);
        lemma_record_all(taken_out, state.freed_since_commit, page);
    }
    if states_hold_all(state) && rollback_restores(state) {
        assert forall|page: u64| page < state.num_pages implies #[trigger] is_allocated(
            allocator_state(after.bytes),
            page,
        ) == is_allocated(primary_allocator_state(after.bytes), page) by {
            assert(page / 8 < working.len());
            assert(is_allocated(primary_allocator_state(state.bytes), page) == is_allocated(
                primary_allocator_state(after.bytes),
                page,
            ));
        }
    }
}

/// Where nothing was allocated or freed since the last commit, a rollback changes
/// nothing.
pub proof fn law_rollback_of_nothing(state: MemoryState)
    requires
        allocator_in_file(state.bytes),
        state.allocated_since_commit == Seq::<PageNumber>::empty(),
        state.freed_since_commit == Seq::<PageNumber>::empty(),
    ensures
        replayable(state),
        rolled_back(state) == state,
        replayed(state) == state,
{
    assert(with_allocator_state(state.bytes, allocator_state(state.bytes)) =~= state.bytes);
}

/// Where both slots record the same pages and nothing was allocated or freed since
/// the last commit, a commit agrees and a rollback restores.
pub proof fn law_settled(state: MemoryState)
    requires
        settled(state),
    ensures
        commit_agrees(state),
        rollback_restores(state),
{
    assert forall|page: u64| page < state.num_pages implies #[trigger] is_allocated(
        primary_allocator_state(state.bytes),
        page,
    ) == is_allocated(allocator_state(state.bytes), page) by {
        assert(is_allocated(allocator_state(state.bytes), page) == is_allocated(
            primary_allocator_state(state.bytes),
            page,
        ));
    }
}

/// Switching makes the secondary slot the primary, clean, and the primary slot the
/// secondary, dirty. Nothing else in the file changes but the primary bit.
pub proof fn law_switch(bytes: Seq<u8>)
    requires
        DB_METAPAGE_SIZE <= bytes.len(),
    ensures
        primary_slot(switched(bytes)) == secondary_slot(bytes).update(
            ALLOCATOR_STATE_DIRTY_OFFSET as int,
            0,
        ),
        secondary_slot(switched(bytes)) == primary_slot(bytes).update(
            ALLOCATOR_STATE_DIRTY_OFFSET as int,
            1,
        ),
        switched(bytes)[PRIMARY_BIT_OFFSET as int] == (if bytes[PRIMARY_BIT_OFFSET as int] == 0 {
            1
        } else {
            0int
        }),
        forall|i: int|
            0 <= i < bytes.len() && i != PRIMARY_BIT_OFFSET && i != TRANSACTION_0_OFFSET
                + ALLOCATOR_STATE_DIRTY_OFFSET && i != TRANSACTION_1_OFFSET
                + ALLOCATOR_STATE_DIRTY_OFFSET ==> #[trigger] switched(bytes)[i] == bytes[i],
{
    assert(primary_slot(switched(bytes)) =~= secondary_slot(bytes).update(
        ALLOCATOR_STATE_DIRTY_OFFSET as int,
        0,
    ));
    assert(secondary_slot(switched(bytes)) =~= primary_slot(bytes).update(
        ALLOCATOR_STATE_DIRTY_OFFSET as int,
        1,
    ));
}

/// The first step of a commit swaps what the slots say, but for the dirty flags: the
/// primary slot is clean then and the secondary dirty. The allocator states are
/// swapped with the slots, and the contents of the pages stay.
pub proof fn law_commit_switches(state: MemoryState)
    requires
        in_place(state),
    ensures
        ({
            let (step, after) = commit_step(state, CommitStep::FlushPages, true);
            &&& step == CommitStep::FlushSwitch
            &&& in_place(after)
            &&& same_frame(after, state)
            &&& after.bytes[PRIMARY_BIT_OFFSET as int] <= 1
            &&& primary_contents(after.bytes) == (SlotContents {
                dirty: 0,
                ..secondary_contents(state.bytes)
            })
            &&& secondary_contents(after.bytes) == (SlotContents {
                dirty: 1,
                ..primary_contents(state.bytes)
            })
            &&& primary_allocator_state(after.bytes) == allocator_state(state.bytes)
            &&& allocator_state(after.bytes) == primary_allocator_state(state.bytes)
            &&& forall|page: PageNumber|
                1 <= page.0 < state.num_pages ==> #[trigger] page_contents(after, page)
                    == page_contents(state, page)
        }),
{
    let (step, after) = commit_step(state, CommitStep::FlushPages, true);
    law_switch(state.bytes);
    assert(after.bytes.subrange(0, MAGICNUMBER_SIZE as int) =~= state.bytes.subrange(
        0,
        MAGICNUMBER_SIZE as int,
    ));
    assert(after.valid());
    assert(same_frame(after, state));
    lemma_header_changed(state, after);
}

/// The second step of a commit touches the allocator state of the secondary slot and
/// nothing else: the pages freed since the last commit are free in it and the others
/// that were allocated since are allocated.
pub proof fn law_commit_replays(state: MemoryState)
    requires
        in_place(state),
        replayable(state),
    ensures
        ({
            let (step, after) = commit_step(state, CommitStep::FlushSwitch, true);
            &&& step == CommitStep::Done
            &&& in_place(after)
            &&& same_frame(after, state)
            &&& after.bytes[PRIMARY_BIT_OFFSET as int] == state.bytes[PRIMARY_BIT_OFFSET as int]
            &&& primary_contents(after.bytes) == primary_contents(state.bytes)
            &&& secondary_contents(after.bytes) == secondary_contents(state.bytes)
            &&& states_apart(state.bytes) ==> primary_allocator_state(after.bytes)
                == primary_allocator_state(state.bytes)
            &&& pages_kept(state, after)
            &&& forall|page: u64|
                page / 8 < allocator_state(state.bytes).len() ==> (#[trigger] is_allocated(
                    allocator_state(after.bytes),
                    page,
                ) <==> !state.freed_since_commit.contains(PageNumber(page)) && (
                state.allocated_since_commit.contains(PageNumber(page)) || is_allocated(
                    allocator_state(state.bytes),
                    page,
                )))
            &&& after.allocated_since_commit == Seq::<PageNumber>::empty()
            &&& after.freed_since_commit == Seq::<PageNumber>::empty()
        }),
{
    let (step, after) = commit_step(state, CommitStep::FlushSwitch, true);
    let base = allocator_state(state.bytes);
    let added = record_all(base, state.allocated_since_commit);
    lemma_replay_length(base, state.allocated_since_commit);
    lemma_replay_length(added, state.freed_since_commit);
    assert(after.valid());
    lemma_state_replaced(state, after, free_all(added, state.freed_since_commit));
    assert forall|page: u64| page / 8 < base.len() implies (#[trigger] is_allocated(
        allocator_state(after.bytes),
        page,
    ) <==> !state.freed_since_commit.contains(PageNumber(page)) && (
    state.allocated_since_commit.contains(PageNumber(page)) || is_allocated(base, page))) by {
        lemma_record_all(base, state.allocated_since_commit, page);
        lemma_free_all(added, state.freed_since_commit, page);
    }
}

/// A commit both of whose flushes worked.
pub open spec fn committed(state: MemoryState) -> MemoryState {
    let (step, switched_state) = commit_step(state, CommitStep::FlushPages, true);
    commit_step(switched_state, step, true).1
}

/// A commit can be made, if its flushes work: no page is open, the primary bit names
/// a slot, and once the slots are switched what was allocated and freed since the
/// last commit can be recorded.
pub open spec fn can_commit(state: MemoryState) -> bool {
    &&& state.open_pages.is_empty()
    &&& state.bytes[PRIMARY_BIT_OFFSET as int] <= 1
    &&& replayable(commit_step(state, CommitStep::FlushPages, true).1)
}

/// A commit whose flushes work completes in two steps. The root page and the
/// allocated pages of the transaction are those of the primary slot then, which is
/// clean; the contents of the pages stay; and where the transaction agrees, both
/// slots record the same pages.
pub proof fn law_commit(state: MemoryState)
    requires
        in_place(state),
        can_commit(state),
    ensures
        ({
            let (step, middle) = commit_step(state, CommitStep::FlushPages, true);
            let (end, after) = commit_step(middle, step, true);
            &&& step == CommitStep::FlushSwitch
            &&& end == CommitStep::Done
            &&& after == committed(state)
            &&& in_place(middle)
            &&& in_place(after)
            &&& same_frame(after, state)
            &&& after.bytes[PRIMARY_BIT_OFFSET as int] == 1 - state.bytes[PRIMARY_BIT_OFFSET as int]
            &&& primary_contents(after.bytes) == (SlotContents {
                dirty: 0,
                ..secondary_contents(state.bytes)
            })
            &&& secondary_contents(after.bytes) == (SlotContents {
                dirty: 1,
                ..primary_contents(state.bytes)
            })
            &&& states_apart(state.bytes) ==> primary_allocator_state(after.bytes)
                == allocator_state(state.bytes)
            &&& after.allocated_since_commit == Seq::<PageNumber>::empty()
            &&& after.freed_since_commit == Seq::<PageNumber>::empty()
            &&& pages_kept(state, after)
            &&& states_hold_all(state) && commit_agrees(state) ==> settled(after)
        }),
{
    let (step, middle) = commit_step(state, CommitStep::FlushPages, true);
    let (end, after) = commit_step(middle, step, true);
    law_switch(state.bytes);
    law_commit_switches(state);
    law_commit_replays(middle);
    assert forall|page: PageNumber|
        1 <= page.0 < state.num_pages && page_clear(state, page) implies #[trigger] page_contents(
        after,
        page,
    ) == page_contents(state, page) by {
        assert(page_clear(middle, page));
        assert(page_contents(after, page) == page_contents(middle, page));
    }
    if states_hold_all(state) && commit_agrees(state) {
        assert forall|page: u64| page < state.num_pages implies #[trigger] is_allocated(
            allocator_state(after.bytes),
            page,
        ) == is_allocated(primary_allocator_state(after.bytes), page) by {
            assert(page / 8 < allocator_state(middle.bytes).len());
            assert(is_allocated(allocator_state(state.bytes), page) == is_allocated(
                primary_allocator_state(after.bytes),
                page,
            ));
        }
    }
}

/// Both slots name the allocator states that formatting puts at the end of the
/// file, hold no root page and are clean; the first slot is the primary.
#[verifier::rlimit(40)]
proof fn lemma_formatted_slots(bytes: Seq<u8>, page_size: int, num_pages: int)
    requires
        DB_METAPAGE_SIZE <= page_size <= bytes.len() <= usize::MAX,
        is_usable_page_count(bytes.len() as int, page_size, num_pages),
    ensures
        ({
            let file = formatted(bytes, page_size, num_pages);
            let size = state_size(num_pages);
            let primary = primary_slot(file);
            let secondary = secondary_slot(file);
            &&& file.len() == bytes.len()
            &&& file[PRIMARY_BIT_OFFSET as int] == 0
            &&& slot_root(primary) == None::<PageNumber>
            &&& slot_root(secondary) == None::<PageNumber>
            &&& slot_dirty_byte(primary) == 0
            &&& slot_dirty_byte(secondary) == 0
            &&& slot_allocator_start(primary) == bytes.len() - 2 * size
            &&& slot_allocator_start(secondary) == bytes.len() - size
            &&& slot_allocator_len(primary) == size
            &&& slot_allocator_len(secondary) == size
            &&& forall|i: int| 0 <= i < MAGICNUMBER_SIZE ==> #[trigger] file[i] == 0
            &&& file.subrange(bytes.len() - 2 * size, bytes.len() - size)
                == initial_allocator_state(num_pages)
            &&& file.subrange(bytes.len() - size, bytes.len() as int) == initial_allocator_state(
                num_pages,
            )
        }),
{
    let len = bytes.len() as int;
    let file = formatted(bytes, page_size, num_pages);
    let size = state_size(num_pages);
    lemma_usable_pages_in_file(len, page_size, num_pages);
    assert(page_size <= num_pages * page_size) by (nonlinear_arith)
        requires
            1 <= num_pages,
            0 <= page_size,
    ;
    let empty = zeros(TRANSACTION_SIZE as int);
    law_allocator_data_is_read_back(empty, (len - 2 * size) as usize, size as usize);
    law_allocator_data_is_read_back(empty, (len - size) as usize, size as usize);
    assert(primary_slot(file) =~= with_allocator_data(empty, 0, len - 2 * size, size));
    // An allocator state may reach into the unused end of the second slot.
    let stored = with_allocator_data(empty, 0, len - size, size);
    let secondary = secondary_slot(file);
    assert(forall|i: int|
        0 <= i <= ALLOCATOR_STATE_DIRTY_OFFSET ==> #[trigger] secondary[i] == stored[i]);
    assert(slot_root(secondary) == slot_root(stored));
    assert(slot_allocator_start(secondary) == slot_allocator_start(stored));
    assert(slot_allocator_len(secondary) == slot_allocator_len(stored));
    assert(be_value(empty, 0) == 0) by {
        assert((0u8 as u64) << 56 | (0u8 as u64) << 48 | (0u8 as u64) << 40 | (0u8 as u64) << 32 | (
        0u8 as u64) << 24 | (0u8 as u64) << 16 | (0u8 as u64) << 8 | (0u8 as u64) == 0)
            by (bit_vector);
    }
    assert(file.subrange(len - 2 * size, len - size) =~= initial_allocator_state(num_pages));
    assert(file.subrange(len - size, len) =~= initial_allocator_state(num_pages));
}

/// A memory over a new file is sound and settled: it has no root page and has only
/// the metapage allocated, in both slots. The allocator states do not overlap and
/// hold all pages, and no page but the last overlaps one. Where the pages fit beside
/// the allocator states the last page does not either, and the memory is well laid.
pub proof fn law_new_file(bytes: Seq<u8>, state: MemoryState)
    requires
        DB_METAPAGE_SIZE <= state.page_size <= bytes.len(),
        is_fresh(
            state,
            with_magic_number(formatted(bytes, state.page_size, state.num_pages)),
            state.page_size,
        ),
        bytes.len() == state.bytes.len(),
    ensures
        sound(state),
        settled(state),
        is_clean(state.bytes),
        state.bytes[PRIMARY_BIT_OFFSET as int] == 0,
        slot_root(primary_slot(state.bytes)) == None::<PageNumber>,
        slot_root(secondary_slot(state.bytes)) == None::<PageNumber>,
        allocator_reachable(state.bytes, state.num_pages),
        forall|page: u64|
            page < state.num_pages ==> (#[trigger] is_allocated(allocator_state(state.bytes), page)
                <==> page == DB_METADATA_PAGE),
        forall|page: u64|
            page < state.num_pages ==> (#[trigger] is_allocated(
                primary_allocator_state(state.bytes),
                page,
            ) <==> page == DB_METADATA_PAGE),
        states_hold_all(state),
        forall|page: PageNumber|
            page.0 + 1 < state.num_pages ==> #[trigger] page_clear(state, page),
        pages_fit(bytes.len() as int, state.page_size, state.num_pages) ==> well_laid(state),
{
    let file = formatted(bytes, state.page_size, state.num_pages);
    let size = state_size(state.num_pages);
    let len = bytes.len() as int;
    lemma_formatted_slots(bytes, state.page_size, state.num_pages);
    lemma_usable_pages_in_file(len, state.page_size, state.num_pages);
    assert(state.page_size <= state.num_pages * state.page_size) by (nonlinear_arith)
        requires
            1 <= state.num_pages,
            0 <= state.page_size,
    ;
    assert(primary_slot(state.bytes) =~= primary_slot(file));
    assert(secondary_slot(state.bytes) =~= secondary_slot(file));
    assert(state.bytes.subrange(0, MAGICNUMBER_SIZE as int) =~= magic_number());
    assert(allocator_state(state.bytes) =~= file.subrange(len - size, len));
    assert(primary_allocator_state(state.bytes) =~= file.subrange(len - 2 * size, len - size));
    assert forall|page: u64| page < state.num_pages implies (#[trigger] is_allocated(
        initial_allocator_state(state.num_pages),
        page,
    ) <==> page == DB_METADATA_PAGE) by {
        lemma_zeros_all_free(size, page);
        lemma_with_page(zeros(size), DB_METADATA_PAGE, page);
    }
    assert forall|page: PageNumber|
        page.0 + 1 < state.num_pages implies #[trigger] page_clear(state, page) by {
        lemma_page_in_file(state, page);
        assert(page.0 * state.page_size + 2 * state.page_size <= state.num_pages * state.page_size)
            by (nonlinear_arith)
            requires
                page.0 + 2 <= state.num_pages,
                0 <= state.page_size,
        ;
    }
    if pages_fit(len, state.page_size, state.num_pages) {
        assert forall|page: PageNumber| page.0 < state.num_pages implies #[trigger] page_clear(
            state,
            page,
        ) by {
            lemma_page_in_file(state, page);
        }
    }
}

/// Formatting leaves no magic number, so that a file whose formatting was cut
/// short is formatted again when it is opened again, to the same bytes.
pub proof fn law_formatting_starts_over(bytes: Seq<u8>, page_size: int, num_pages: int)
    requires
        DB_METAPAGE_SIZE <= page_size <= bytes.len() <= usize::MAX,
        is_usable_page_count(bytes.len() as int, page_size, num_pages),
    ensures
        ({
            let file = formatted(bytes, page_size, num_pages);
            &&& !has_magic_number(file)
            &&& openable(file, page_size)
            &&& formatted(file, page_size, num_pages) == file
        }),
{
    let file = formatted(bytes, page_size, num_pages);
    lemma_formatted_slots(bytes, page_size, num_pages);
    lemma_usable_pages_in_file(bytes.len() as int, page_size, num_pages);
    assert(page_size <= num_pages * page_size) by (nonlinear_arith)
        requires
            1 <= num_pages,
            0 <= page_size,
    ;
    assert(file.subrange(0, MAGICNUMBER_SIZE as int)[0] == file[0]);
    assert(magic_number()[0] == 114);
    assert(formatted(file, page_size, num_pages) =~= file);
}

/// Once a file has been opened it can be opened again, and is then left as it is.
pub proof fn law_opened_file_reopens(opening: Opening, bytes: Seq<u8>, page_size: int)
    requires
        openable(bytes, page_size),
        opens_as(opening, bytes, page_size),
    ensures
        ({
            let opened = match opening {
                Opening::FlushFormat(memory) => with_magic_number(memory@.bytes),
                Opening::Ready(memory) => memory@.bytes,
                _ => bytes,
            };
            &&& has_magic_number(opened)
            &&& openable(opened, page_size)
        }),
{
    match opening {
        Opening::FlushFormat(memory) => {
            let state = MemoryState { bytes: with_magic_number(memory@.bytes), ..memory@ };
            law_new_file(bytes, state);
        },
        _ => {},
    }
}

/// A memory that was closed after a flush that worked can be opened again, is left
/// as it is then and is sound again. It has the same root page, the same pages and
/// the same allocator states, in both slots, and nothing is open or was allocated or
/// freed since the last commit.
pub proof fn law_closed_file_reopens(
    state: MemoryState,
    page_size: usize,
    opened: Result<Opening, Error>,
)
    requires
        sound(state),
        page_size == state.page_size,
        opens_with(opened, cleaned(state).bytes, page_size),
    ensures
        openable(cleaned(state).bytes, state.page_size),
        opened is Ok,
        opened->Ok_0 is Ready,
        ({
            let reopened = opened->Ok_0->Ready_0@;
            &&& reopened.bytes == cleaned(state).bytes
            &&& sound(reopened)
            &&& same_frame(reopened, state)
            &&& well_laid(state) ==> well_laid(reopened)
            &&& reopened.bytes[PRIMARY_BIT_OFFSET as int] == state.bytes[PRIMARY_BIT_OFFSET as int]
            &&& primary_contents(reopened.bytes) == primary_contents(state.bytes)
            &&& secondary_contents(reopened.bytes) == (SlotContents {
                dirty: 0,
                ..secondary_contents(state.bytes)
            })
            &&& primary_allocator_state(reopened.bytes) == primary_allocator_state(state.bytes)
            &&& allocator_state(reopened.bytes) == allocator_state(state.bytes)
            &&& forall|page: PageNumber|
                1 <= page.0 < state.num_pages ==> #[trigger] page_contents(reopened, page)
                    == page_contents(state, page)
            &&& reopened.allocated_since_commit == Seq::<PageNumber>::empty()
            &&& reopened.freed_since_commit == Seq::<PageNumber>::empty()
            &&& reopened.open_pages == Set::<u64>::empty()
            &&& settled(state) ==> settled(reopened)
        }),
{
    let closed = cleaned(state);
    law_dirty_flag_is_read_back(state, false);
    assert(has_magic_number(closed.bytes));
    assert(is_clean(closed.bytes));
    let reopened = opened->Ok_0->Ready_0@;
    lemma_usable_page_count_unique(
        closed.bytes.len() as int,
        state.page_size,
        reopened.num_pages,
        state.num_pages,
    );
    assert forall|page: PageNumber| 1 <= page.0 < state.num_pages implies #[trigger] page_contents(
        reopened,
        page,
    ) == page_contents(state, page) by {
        assert(page_contents(closed, page) == page_contents(state, page));
    }
    if well_laid(state) {
        assert forall|page: PageNumber| page.0 < reopened.num_pages implies #[trigger] page_clear(
            reopened,
            page,
        ) by {
            assert(page_clear(state, page));
        }
    }
}

/// A file whose secondary slot is dirty is not opened.
pub proof fn law_dirty_file_is_refused(bytes: Seq<u8>, page_size: int)
    requires
        has_magic_number(bytes),
        slot_dirty_byte(secondary_slot(bytes)) != 0,
    ensures
        !openable(bytes, page_size),
{
}

/// A memory is valid exactly where its pages hold the metapage, the file holds it, the
/// page count is the usable one, and every page that was allocated or freed is one of
/// the file. Its bytes do not matter, nor do the pages that are open.
pub proof fn law_valid(state: MemoryState)
    ensures
        state.valid() <==> {
            &&& DB_METAPAGE_SIZE <= state.page_size <= usize::MAX
            &&& DB_METAPAGE_SIZE <= state.bytes.len() <= usize::MAX
            &&& is_usable_page_count(state.bytes.len() as int, state.page_size, state.num_pages)
            &&& forall|page: PageNumber| #[trigger]
                state.allocated_since_commit.contains(page) ==> page.0 < state.num_pages
            &&& forall|page: PageNumber| #[trigger]
                state.freed_since_commit.contains(page) ==> page.0 < state.num_pages
        },
{
    lemma_all_below(state.allocated_since_commit, state.num_pages);
    lemma_all_below(state.freed_since_commit, state.num_pages);
}

/// All of the pages are below a number where each that occurs is.
proof fn lemma_all_below(pages: Seq<PageNumber>, num_pages: int)
    ensures
        all_below(pages, num_pages) <==> forall|page: PageNumber| #[trigger]
            pages.contains(page) ==> page.0 < num_pages,
{
    assert forall|i: int| 0 <= i < pages.len() implies #[trigger] pages.contains(pages[i]) by {}
    if forall|page: PageNumber| #[trigger] pages.contains(page) ==> page.0 < num_pages {
        assert forall|i: int| 0 <= i < pages.len() implies (#[trigger] pages[i]).0 < num_pages by {
            assert(pages.contains(pages[i]));
        }
    }
}

/// All of the pages have a byte in an allocator state where each that occurs has.
proof fn lemma_recordable(pages: Seq<PageNumber>, size: int)
    ensures
        recordable(pages, size) <==> forall|page: PageNumber| #[trigger]
            pages.contains(page) ==> page.0 / 8 < size,
{
    assert forall|i: int| 0 <= i < pages.len() implies #[trigger] pages.contains(pages[i]) by {}
    if forall|page: PageNumber| #[trigger] pages.contains(page) ==> page.0 / 8 < size {
        assert forall|i: int| 0 <= i < pages.len() implies (#[trigger] pages[i]).0 / 8 < size by {
            assert(pages.contains(pages[i]));
        }
    }
}

/// The allocator state of the secondary slot is the bytes that the slot names, and the
/// one of the primary slot likewise. The former lies in the file exactly where it ends
/// there, as far as its end can be counted.
pub proof fn law_allocator_state(bytes: Seq<u8>)
    ensures
        ({
            let slot = secondary_slot(bytes);
            let end = slot_allocator_start(slot) + slot_allocator_len(slot);
            &&& allocator_start(bytes) == slot_state_start(slot)
            &&& allocator_end(bytes) == slot_state_end(slot)
            &&& end <= usize::MAX ==> (allocator_in_file(bytes) <==> end <= bytes.len())
            &&& end > u64::MAX ==> !allocator_in_file(bytes)
            &&& allocator_in_file(bytes) ==> allocator_start(bytes) <= allocator_end(bytes)
                <= bytes.len()
            &&& allocator_state(bytes) == bytes.subrange(slot_state_start(slot), slot_state_end(
                slot,
            ))
            &&& primary_allocator_state(bytes) == bytes.subrange(
                slot_state_start(primary_slot(bytes)),
                slot_state_end(primary_slot(bytes)),
            )
        }),
{
}

/// The allocator state is reachable where it lies in the file and has a bit for every
/// page; it can be replayed where it lies in the file and has a bit for every page that
/// was allocated or freed since the last commit.
pub proof fn law_allocator_fits(state: MemoryState)
    requires
        0 <= state.num_pages,
    ensures
        ({
            let size = allocator_end(state.bytes) - allocator_start(state.bytes);
            &&& allocator_reachable(state.bytes, state.num_pages) <==> allocator_in_file(
                state.bytes,
            ) && state.num_pages <= 8 * size
            &&& replayable(state) <==> allocator_in_file(state.bytes) && (forall|
                page: PageNumber,
            | #[trigger]
                state.allocated_since_commit.contains(page) ==> page.0 / 8 < size) && (forall|
                page: PageNumber,
            | #[trigger]
                state.freed_since_commit.contains(page) ==> page.0 / 8 < size)
        }),
{
    let size = allocator_end(state.bytes) - allocator_start(state.bytes);
    lemma_recordable(state.allocated_since_commit, size);
    lemma_recordable(state.freed_since_commit, size);
}

/// Pages lie one behind the other from the start of the file.
pub proof fn law_page_start(page: PageNumber, page_size: int)
    requires
        page.0 <= usize::MAX,
    ensures
        page_start(page, page_size) == page.0 * page_size,
{
}

/// Setting the root page writes its number into the secondary slot and changes no other
/// byte, no list and no page that is open.
pub proof fn law_set_root_only(state: MemoryState, root_page: PageNumber)
    requires
        DB_METAPAGE_SIZE <= state.bytes.len(),
    ensures
        ({
            let after = root_set(state, root_page);
            let at = secondary_offset(state.bytes) + ROOT_PAGE_OFFSET;
            &&& after.bytes.len() == state.bytes.len()
            &&& after.bytes.subrange(at, at + 8) == be_bytes(root_page.0)
            &&& forall|i: int|
                0 <= i < state.bytes.len() && !(at <= i < at + 8) ==> #[trigger] after.bytes[i]
                    == state.bytes[i]
            &&& after == (MemoryState { bytes: after.bytes, ..state })
        }),
{
    let after = root_set(state, root_page);
    let at = secondary_offset(state.bytes) + ROOT_PAGE_OFFSET;
    assert(after.bytes.subrange(at, at + 8) =~= be_bytes(root_page.0));
}

/// Marking the secondary slot, dirty or clean, writes one byte.
pub proof fn law_mark_only(bytes: Seq<u8>, dirty: bool)
    requires
        DB_METAPAGE_SIZE <= bytes.len(),
    ensures
        ({
            let after = with_secondary_dirty(bytes, dirty);
            let at = secondary_offset(bytes) + ALLOCATOR_STATE_DIRTY_OFFSET;
            &&& after.len() == bytes.len()
            &&& dirty ==> after[at] == 1
            &&& !dirty ==> after[at] == 0
            &&& forall|i: int| 0 <= i < bytes.len() && i != at ==> #[trigger] after[i] == bytes[i]
        }),
{
}

/// Closing marks the secondary slot clean and changes no other byte, no list and no page
/// that is open.
pub proof fn law_close_only(state: MemoryState)
    requires
        DB_METAPAGE_SIZE <= state.bytes.len(),
    ensures
        ({
            let after = cleaned(state);
            let at = secondary_offset(state.bytes) + ALLOCATOR_STATE_DIRTY_OFFSET;
            &&& after.bytes.len() == state.bytes.len()
            &&& after.bytes[at] == 0
            &&& forall|i: int|
                0 <= i < state.bytes.len() && i != at ==> #[trigger] after.bytes[i]
                    == state.bytes[i]
            &&& after == (MemoryState { bytes: after.bytes, ..state })
        }),
{
}

/// Whatever the slots record: a page that is allocated is listed, last, as allocated
/// since the last commit. What was freed stays listed, and so do the pages that are
/// open.
pub proof fn law_allocation_is_listed(state: MemoryState, page: PageNumber)
    ensures
        ({
            let after = page_allocated(state, page);
            &&& after.allocated_since_commit == state.allocated_since_commit.push(page)
            &&& after.allocated_since_commit.contains(page)
            &&& after == (MemoryState {
                bytes: after.bytes,
                allocated_since_commit: after.allocated_since_commit,
                ..state
            })
        }),
{
    let after = page_allocated(state, page);
    assert(after.allocated_since_commit[state.allocated_since_commit.len() as int] == page);
}

/// Whatever the slots record: a page that is freed is listed, last, as freed since the
/// last commit. What was allocated stays listed, and so do the pages that are open.
pub proof fn law_free_is_listed(state: MemoryState, page: PageNumber)
    ensures
        ({
            let after = page_freed(state, page);
            &&& after.freed_since_commit == state.freed_since_commit.push(page)
            &&& after.freed_since_commit.contains(page)
            &&& after == (MemoryState {
                bytes: after.bytes,
                freed_since_commit: after.freed_since_commit,
                ..state
            })
        }),
{
    let after = page_freed(state, page);
    assert(after.freed_since_commit[state.freed_since_commit.len() as int] == page);
}

/// Whatever was allocated and freed and whatever the slots record: after a rollback
/// nothing counts as allocated or freed since the last commit.
pub proof fn law_rollback_empties_lists(state: MemoryState)
    ensures
        ({
            let after = rolled_back(state);
            &&& after.allocated_since_commit.len() == 0
            &&& after.freed_since_commit.len() == 0
            &&& after.page_size == state.page_size
            &&& after.num_pages == state.num_pages
            &&& after.open_pages == state.open_pages
        }),
{
}

/// A step of a commit after a flush that failed changes nothing and ends the commit. The
/// first step changes only bytes. The second completes the commit, and whatever was
/// allocated and freed, nothing counts as allocated or freed since then.
pub proof fn law_commit_steps(state: MemoryState, flush: CommitStep)
    ensures
        commit_step(state, flush, false) == (CommitStep::Failed, state),
        ({
            let (step, after) = commit_step(state, CommitStep::FlushPages, true);
            &&& step == CommitStep::FlushSwitch
            &&& after == (MemoryState { bytes: after.bytes, ..state })
        }),
        ({
            let (step, after) = commit_step(state, CommitStep::FlushSwitch, true);
            &&& step == CommitStep::Done
            &&& after.allocated_since_commit.len() == 0
            &&& after.freed_since_commit.len() == 0
            &&& after.page_size == state.page_size
            &&& after.num_pages == state.num_pages
            &&& after.open_pages == state.open_pages
        }),
{
}

/// The first step of a commit turns the primary bit, clears the dirty flag of the slot
/// that was the secondary and sets that of the other, and changes no other byte.
pub proof fn law_commit_switches_only(state: MemoryState)
    requires
        DB_METAPAGE_SIZE <= state.bytes.len(),
        state.bytes[PRIMARY_BIT_OFFSET as int] <= 1,
    ensures
        ({
            let before = state.bytes;
            let after = commit_step(state, CommitStep::FlushPages, true).1.bytes;
            let first = TRANSACTION_0_OFFSET + ALLOCATOR_STATE_DIRTY_OFFSET;
            let second = TRANSACTION_1_OFFSET + ALLOCATOR_STATE_DIRTY_OFFSET;
            let bit = PRIMARY_BIT_OFFSET as int;
            &&& after.len() == before.len()
            &&& after[bit] == 1 - before[bit]
            &&& before[bit] == 0 ==> after[second] == 0 && after[first] == 1
            &&& before[bit] == 1 ==> after[first] == 0 && after[second] == 1
            &&& forall|i: int|
                0 <= i < before.len() && i != bit && i != first && i != second
                    ==> #[trigger] after[i] == before[i]
        }),
{
}

/// Writing a page leaves in it what was written, and changes no other byte and no list.
pub proof fn law_write_only(
    state: MemoryState,
    page: PageNumber,
    contents: Seq<u8>,
    open_pages: Set<u64>,
)
    requires
        0 <= page_start(page, state.page_size),
        0 <= state.page_size,
        page_start(page, state.page_size) + state.page_size <= state.bytes.len(),
        contents.len() == state.page_size,
    ensures
        ({
            let after = page_written(state, page, contents, open_pages);
            let start = page_start(page, state.page_size);
            let end = start + state.page_size;
            &&& after.bytes.len() == state.bytes.len()
            &&& after.bytes.subrange(start, end) == contents
            &&& forall|i: int|
                0 <= i < state.bytes.len() && !(start <= i < end) ==> #[trigger] after.bytes[i]
                    == state.bytes[i]
            &&& after == (MemoryState { bytes: after.bytes, open_pages, ..state })
        }),
{
    let after = page_written(state, page, contents, open_pages);
    let start = page_start(page, state.page_size);
    assert(after.bytes.subrange(start, start + state.page_size) =~= contents);
}

/// Whatever the slots record: allocating a page marks the secondary slot dirty and
/// records that page, and no other, as allocated in its allocator state. No byte outside
/// of that state changes but the flag.
pub proof fn law_allocate_only(state: MemoryState, page: PageNumber)
    requires
        DB_METAPAGE_SIZE <= state.bytes.len(),
        allocator_in_file(state.bytes),
        page.0 / 8 < allocator_end(state.bytes) - allocator_start(state.bytes),
    ensures
        ({
            let marked = with_secondary_dirty(state.bytes, true);
            let after = page_allocated(state, page).bytes;
            let start = allocator_start(state.bytes);
            let end = allocator_end(state.bytes);
            &&& after.len() == state.bytes.len()
            &&& forall|i: int|
                0 <= i < after.len() && !(start <= i < end) ==> #[trigger] after[i] == marked[i]
            &&& forall|other: u64|
                other / 8 < end - start ==> (#[trigger] is_allocated(
                    after.subrange(start, end),
                    other,
                ) <==> other == page.0 || is_allocated(marked.subrange(start, end), other))
        }),
{
    let marked = with_secondary_dirty(state.bytes, true);
    let after = page_allocated(state, page).bytes;
    let start = allocator_start(state.bytes);
    let end = allocator_end(state.bytes);
    lemma_dirty_keeps_allocator_range(state.bytes, true);
    assert(after.subrange(start, end) =~= with_page(marked.subrange(start, end), page.0));
    law_record(marked.subrange(start, end), page.0);
}

/// Whatever the slots record: freeing a page records that page, and no other, as free in
/// the allocator state of the secondary slot, and changes no byte outside of it.
pub proof fn law_free_only(state: MemoryState, page: PageNumber)
    requires
        allocator_in_file(state.bytes),
        page.0 / 8 < allocator_end(state.bytes) - allocator_start(state.bytes),
    ensures
        ({
            let after = page_freed(state, page).bytes;
            let start = allocator_start(state.bytes);
            let end = allocator_end(state.bytes);
            &&& after.len() == state.bytes.len()
            &&& forall|i: int|
                0 <= i < after.len() && !(start <= i < end) ==> #[trigger] after[i]
                    == state.bytes[i]
            &&& forall|other: u64|
                other / 8 < end - start ==> (#[trigger] is_allocated(
                    after.subrange(start, end),
                    other,
                ) <==> other != page.0 && is_allocated(allocator_state(state.bytes), other))
        }),
{
    let after = page_freed(state, page).bytes;
    let start = allocator_start(state.bytes);
    let end = allocator_end(state.bytes);
    assert(after.subrange(start, end) =~= without_page(allocator_state(state.bytes), page.0));
    law_record(allocator_state(state.bytes), page.0);
}

/// Whatever the slots record: a rollback records as allocated what was freed since the
/// last commit, records as free what else was allocated since then, and leaves every
/// other page as it is recorded. No byte outside of the allocator state of the secondary
/// slot changes.
pub proof fn law_rollback_only(state: MemoryState)
    requires
        replayable(state),
    ensures
        ({
            let after = rolled_back(state).bytes;
            let start = allocator_start(state.bytes);
            let end = allocator_end(state.bytes);
            &&& after.len() == state.bytes.len()
            &&& forall|i: int|
                0 <= i < after.len() && !(start <= i < end) ==> #[trigger] after[i]
                    == state.bytes[i]
            &&& forall|page: u64|
                page / 8 < end - start ==> (#[trigger] is_allocated(
                    after.subrange(start, end),
                    page,
                ) <==> state.freed_since_commit.contains(PageNumber(page)) || (
                !state.allocated_since_commit.contains(PageNumber(page)) && is_allocated(
                    allocator_state(state.bytes),
                    page,
                )))
        }),
{
    let after = rolled_back(state).bytes;
    let start = allocator_start(state.bytes);
    let end = allocator_end(state.bytes);
    let working = allocator_state(state.bytes);
    let taken_out = free_all(working, state.allocated_since_commit);
    lemma_replay_length(working, state.allocated_since_commit);
    lemma_replay_length(taken_out, state.freed_since_commit);
    assert(after.subrange(start, end) =~= record_all(taken_out, state.freed_since_commit));
    assert forall|page: u64| page / 8 < end - start implies (#[trigger] is_allocated(
        after.subrange(start, end),
        page,
    ) <==> state.freed_since_commit.contains(PageNumber(page)) || (
    !state.allocated_since_commit.contains(PageNumber(page)) && is_allocated(working, page))) by {
        lemma_free_all(working, state.allocated_since_commit, page);
        lemma_record_all(taken_out, state.freed_since_commit, page);
    }
}

/// Whatever the slots record: the second step of a commit records as free what was freed
/// since the last commit, records as allocated what else was allocated since then, and
/// leaves every other page as it is recorded. No byte outside of the allocator state of
/// the secondary slot changes.
pub proof fn law_replay_only(state: MemoryState)
    requires
        replayable(state),
    ensures
        ({
            let after = commit_step(state, CommitStep::FlushSwitch, true).1.bytes;
            let start = allocator_start(state.bytes);
            let end = allocator_end(state.bytes);
            &&& after.len() == state.bytes.len()
            &&& forall|i: int|
                0 <= i < after.len() && !(start <= i < end) ==> #[trigger] after[i]
                    == state.bytes[i]
            &&& forall|page: u64|
                page / 8 < end - start ==> (#[trigger] is_allocated(
                    after.subrange(start, end),
                    page,
                ) <==> !state.freed_since_commit.contains(PageNumber(page)) && (
                state.allocated_since_commit.contains(PageNumber(page)) || is_allocated(
                    allocator_state(state.bytes),
                    page,
                )))
        }),
{
    let after = commit_step(state, CommitStep::FlushSwitch, true).1.bytes;
    let start = allocator_start(state.bytes);
    let end = allocator_end(state.bytes);
    let base = allocator_state(state.bytes);
    let added = record_all(base, state.allocated_since_commit);
    lemma_replay_length(base, state.allocated_since_commit);
    lemma_replay_length(added, state.freed_since_commit);
    assert(after.subrange(start, end) =~= free_all(added, state.freed_since_commit));
    assert forall|page: u64| page / 8 < end - start implies (#[trigger] is_allocated(
        after.subrange(start, end),
        page,
    ) <==> !state.freed_since_commit.contains(PageNumber(page)) && (
    state.allocated_since_commit.contains(PageNumber(page)) || is_allocated(base, page))) by {
        lemma_record_all(base, state.allocated_since_commit, page);
        lemma_free_all(added, state.freed_since_commit, page);
    }
}

/// Writing the magic number puts it at the start of the file and changes no other byte.
pub proof fn law_magic_number_only(bytes: Seq<u8>)
    requires
        4 <= bytes.len(),
    ensures
        with_magic_number(bytes).len() == bytes.len(),
        has_magic_number(with_magic_number(bytes)),
        forall|i: int| 4 <= i < bytes.len() ==> #[trigger] with_magic_number(bytes)[i] == bytes[i],
{
    let after = with_magic_number(bytes);
    assert(after.subrange(0, MAGICNUMBER_SIZE as int) =~= magic_number());
}

/// What comes of opening a file. It fails exactly where there is a reason to refuse it.
/// Otherwise the memory has pages of the size that was asked for, as many as fit, and
/// nothing is open or was allocated or freed. A file with the magic number is ready and
/// left as it is; one without was formatted and has yet to be flushed.
pub proof fn law_opening(opened: Result<Opening, Error>, bytes: Seq<u8>, page_size: usize)
    requires
        opens_with(opened, bytes, page_size),
    ensures
        opened is Err <==> opening_error(bytes, page_size) is Some,
        opened is Err ==> opened->Err_0 == opening_error(bytes, page_size)->Some_0,
        opened is Ok ==> ({
            let opening = opened->Ok_0;
            let state = if opening is Ready {
                opening->Ready_0@
            } else {
                opening->FlushFormat_0@
            };
            &&& opening is Ready || opening is FlushFormat
            &&& opening is Ready <==> has_magic_number(bytes)
            &&& opening is Ready ==> state.bytes == bytes
            &&& opening is FlushFormat ==> state.bytes == formatted(
                bytes,
                page_size as int,
                state.num_pages,
            )
            &&& state.valid()
            &&& state.page_size == page_size
            &&& is_usable_page_count(bytes.len() as int, page_size as int, state.num_pages)
            &&& state.allocated_since_commit.len() == 0
            &&& state.freed_since_commit.len() == 0
            &&& state.open_pages == Set::<u64>::empty()
        }),
{
    if opened is Ok && !has_magic_number(bytes) {
        let state = opened->Ok_0->FlushFormat_0@;
        assert(state.bytes.len() == bytes.len());
    }
}

} // verus!
