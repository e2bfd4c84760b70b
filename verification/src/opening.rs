//! Opening a file: formatting it where it is new.
use crate::bytes::{be_bytes, section_mut, splice, zero_fill, zeros};
use crate::layout::{is_usable_page_count, lemma_usable_pages_in_file, DB_METAPAGE_SIZE};
use crate::metapage::{
    get_secondary, primary_slot, secondary_offset, secondary_slot, slot_dirty_byte, MetapageGuard,
    PageNumber, TransactionMutator, ALLOCATOR_STATE_DIRTY_OFFSET, ALLOCATOR_STATE_LEN_OFFSET,
    ALLOCATOR_STATE_PTR_OFFSET, DB_METADATA_PAGE, MAGICNUMBER_SIZE, PRIMARY_BIT_OFFSET,
    TRANSACTION_0_OFFSET, TRANSACTION_1_OFFSET,
};
use crate::page_allocator::{state_size, with_page, PageAllocator};
use crate::state::{with_secondary_dirty, with_secondary_root};
use vstd::prelude::*;

verus! {

/// The state of an allocator of `num_pages` pages of which only the metapage is
/// allocated.
pub open spec fn initial_allocator_state(num_pages: int) -> Seq<u8> {
    with_page(zeros(state_size(num_pages)), DB_METADATA_PAGE)
}

/// `metapage` with the allocator data of the slot at `offset` stored.
pub open spec fn with_allocator_data(metapage: Seq<u8>, offset: int, start: int, len: int) -> Seq<
    u8,
> {
    splice(
        splice(metapage, offset + ALLOCATOR_STATE_PTR_OFFSET, be_bytes(start as u64)),
        offset + ALLOCATOR_STATE_LEN_OFFSET,
        be_bytes(len as u64),
    )
}

/// `bytes` with the metapage, and all that follows the pages, filled with zeros.
pub open spec fn cleared(bytes: Seq<u8>, page_size: int, num_pages: int) -> Seq<u8> {
    splice(
        splice(bytes, 0, zeros(DB_METAPAGE_SIZE as int)),
        num_pages * page_size,
        zeros(bytes.len() - num_pages * page_size),
    )
}

/// `bytes` as a new file, but for the magic number: the metapage names the first
/// slot as the primary; the two slots name the two allocator states, which fill
/// the end of the file, and hold no root page and no dirty flag; in both states
/// only the metapage is allocated.
pub open spec fn formatted(bytes: Seq<u8>, page_size: int, num_pages: int) -> Seq<u8> {
    let size = state_size(num_pages);
    let first = bytes.len() - 2 * size;
    let second = bytes.len() - size;
    let slots = with_allocator_data(
        with_allocator_data(
            cleared(bytes, page_size, num_pages),
            TRANSACTION_0_OFFSET as int,
            first,
            size,
        ),
        TRANSACTION_1_OFFSET as int,
        second,
        size,
    );
    splice(
        splice(slots, first, initial_allocator_state(num_pages)),
        second,
        initial_allocator_state(num_pages),
    )
}

/// Makes the bytes from `start` on an allocator state in which only the metapage
/// is allocated.
fn init_allocator_state(mem: &mut [u8], start: usize, num_pages: usize)
    requires
        1 <= num_pages,
        start + state_size(num_pages as int) <= old(mem)@.len(),
    ensures
        final(mem)@ == splice(
            old(mem)@,
            start as int,
            initial_allocator_state(num_pages as int),
        ),
{
    assert(mem.len() == mem@.len());
    let size: usize = PageAllocator::required_space(num_pages);
    let state: &mut [u8] = section_mut(mem, start, start + size);
    let allocator: PageAllocator = PageAllocator::init_new(state, num_pages);
    allocator.record_alloc(state, DB_METADATA_PAGE);
    assert(mem@ =~= splice(
        old(mem)@,
        start as int,
        initial_allocator_state(num_pages as int),
    ));
}

/// Makes the secondary slot name the allocator state of `size` bytes at `start`.
fn init_secondary_slot(mem: &mut [u8], start: usize, size: usize, guard: &mut MetapageGuard)
    requires
        DB_METAPAGE_SIZE <= old(mem)@.len(),
    ensures
        final(mem)@ == with_allocator_data(
            with_secondary_dirty(old(mem)@, false),
            secondary_offset(old(mem)@),
            start as int,
            size as int,
        ),
{
    let mut mutator = TransactionMutator::new(get_secondary(mem), guard);
    mutator.set_allocator_dirty(false);
    mutator.set_allocator_data(start, size);
    assert(mem@ =~= with_allocator_data(
        with_secondary_dirty(old(mem)@, false),
        secondary_offset(old(mem)@),
        start as int,
        size as int,
    ));
}

/// Makes zero the root page of the secondary slot.
fn init_secondary_root(mem: &mut [u8], guard: &mut MetapageGuard)
    requires
        DB_METAPAGE_SIZE <= old(mem)@.len(),
    ensures
        final(mem)@ == with_secondary_root(old(mem)@, PageNumber(0)),
{
    let mut mutator = TransactionMutator::new(get_secondary(mem), guard);
    mutator.set_root_page(PageNumber(0));
    assert(mem@ =~= with_secondary_root(old(mem)@, PageNumber(0)));
}

/// Storing no root page where there is none changes nothing.
proof fn lemma_zero_root(bytes: Seq<u8>)
    requires
        DB_METAPAGE_SIZE <= bytes.len(),
        forall|i: int|
            TRANSACTION_0_OFFSET <= i < DB_METAPAGE_SIZE ==> #[trigger] bytes[i] == 0,
    ensures
        with_secondary_root(bytes, PageNumber(0)) == bytes,
        with_secondary_dirty(bytes, false) == bytes,
{
    assert((0u64 >> 56) as u8 == 0 && (0u64 >> 48) as u8 == 0 && (0u64 >> 40) as u8 == 0 && (0u64
        >> 32) as u8 == 0 && (0u64 >> 24) as u8 == 0 && (0u64 >> 16) as u8 == 0 && (0u64 >> 8) as u8
        == 0 && 0u64 as u8 == 0) by (bit_vector);
    assert(be_bytes(0) =~= zeros(8));
    assert(with_secondary_root(bytes, PageNumber(0)) =~= bytes);
    assert(with_secondary_dirty(bytes, false) =~= bytes);
}

/// Writing the first allocator state before or after the second slot, and the
/// primary bit in between, comes to the same.
proof fn lemma_format_order(cleared_bytes: Seq<u8>, first: int, size: int, state: Seq<u8>)
    requires
        DB_METAPAGE_SIZE - 2 <= first,
        first + size <= cleared_bytes.len(),
        state.len() == size,
        DB_METAPAGE_SIZE <= cleared_bytes.len(),
        forall|i: int| 0 <= i < DB_METAPAGE_SIZE ==> #[trigger] cleared_bytes[i] == 0,
    ensures
        ({
            let second = first + size;
            let turned = cleared_bytes.update(PRIMARY_BIT_OFFSET as int, 1);
            let slot = with_allocator_data(turned, TRANSACTION_0_OFFSET as int, first, size);
            let primary = splice(slot, first, state).update(PRIMARY_BIT_OFFSET as int, 0);
            let both = with_allocator_data(
                with_secondary_dirty(primary, false),
                TRANSACTION_1_OFFSET as int,
                second,
                size,
            );
            &&& secondary_offset(turned) == TRANSACTION_0_OFFSET
            &&& secondary_offset(primary) == TRANSACTION_1_OFFSET
            &&& both == splice(
                with_allocator_data(
                    with_allocator_data(cleared_bytes, TRANSACTION_0_OFFSET as int, first, size),
                    TRANSACTION_1_OFFSET as int,
                    second,
                    size,
                ),
                first,
                state,
            )
        }),
{
    let second = first + size;
    let turned = cleared_bytes.update(PRIMARY_BIT_OFFSET as int, 1);
    let slot = with_allocator_data(turned, TRANSACTION_0_OFFSET as int, first, size);
    let primary = splice(slot, first, state).update(PRIMARY_BIT_OFFSET as int, 0);
    let plain = splice(
        with_allocator_data(cleared_bytes, TRANSACTION_0_OFFSET as int, first, size),
        first,
        state,
    );
    assert(primary =~= plain);
    assert(with_secondary_dirty(plain, false) =~= plain);
    assert(with_allocator_data(plain, TRANSACTION_1_OFFSET as int, second, size) =~= splice(
        with_allocator_data(
            with_allocator_data(cleared_bytes, TRANSACTION_0_OFFSET as int, first, size),
            TRANSACTION_1_OFFSET as int,
            second,
            size,
        ),
        first,
        state,
    ));
}

/// Makes `mem` a new file, but for the magic number.
pub fn format_file(mem: &mut [u8], page_size: usize, num_pages: usize, guard: &mut MetapageGuard)
    requires
        DB_METAPAGE_SIZE <= page_size <= old(mem)@.len(),
        is_usable_page_count(old(mem)@.len() as int, page_size as int, num_pages as int),
    ensures
        final(mem)@ == formatted(old(mem)@, page_size as int, num_pages as int),
{
    let len: usize = mem.len();
    proof {
        lemma_usable_pages_in_file(len as int, page_size as int, num_pages as int);
        assert(page_size <= num_pages * page_size) by (nonlinear_arith)
            requires
                1 <= num_pages,
                0 <= page_size,
        ;
    }
    // Explicitly zero the memory
    zero_fill(mem, 0, DB_METAPAGE_SIZE);
    zero_fill(mem, num_pages * page_size, len);
    let ghost cleared_bytes = mem@;

    let allocator_state_size: usize = PageAllocator::required_space(num_pages);

    // Set to 1, so that we can mutate the first transaction state
    mem[PRIMARY_BIT_OFFSET] = 1;
    let start: usize = len - 2 * allocator_state_size;
    proof {
        lemma_zero_root(mem@);
        lemma_format_order(
            cleared_bytes,
            start as int,
            allocator_state_size as int,
            initial_allocator_state(num_pages as int),
        );
    }
    init_secondary_root(mem, guard);
    init_secondary_slot(mem, start, allocator_state_size, guard);
    init_allocator_state(mem, start, num_pages);
    // Make the state we just wrote the primary
    mem[PRIMARY_BIT_OFFSET] = 0;

    // Initialize the secondary allocator state
    let start: usize = len - allocator_state_size;
    init_secondary_slot(mem, start, allocator_state_size, guard);
    init_allocator_state(mem, start, num_pages);
}

/// The magic number that a complete file starts with, in ASCII "redb".
pub const MAGICNUMBER: [u8; 4] = [114, 101, 100, 98];

/// The magic number as a sequence.
pub open spec fn magic_number() -> Seq<u8> {
    MAGICNUMBER@
}

/// `bytes` starts with the magic number.
pub open spec fn has_magic_number(bytes: Seq<u8>) -> bool {
    bytes.subrange(0, MAGICNUMBER_SIZE as int) == magic_number()
}

/// Why a file cannot be opened.
#[derive(Copy, Clone, Debug, PartialEq, Eq, Structural)]
pub enum Error {
    /// The metapage does not fit into a page of `page_size` bytes.
    PageTooSmall { page_size: usize },
    /// The file has no room for the metapage, or is new and has no room for a page
    /// of `page_size` bytes.
    FileTooShort { page_size: usize },
    /// An allocator state is dirty: the file was not closed properly.
    NotClean,
}

/// No allocator state of the file is marked dirty.
pub open spec fn is_clean(bytes: Seq<u8>) -> bool {
    slot_dirty_byte(primary_slot(bytes)) == 0 && slot_dirty_byte(secondary_slot(bytes)) == 0
}

/// The file has room for the metapage and, where it is new, for a page.
pub open spec fn is_long_enough(bytes: Seq<u8>, page_size: int) -> bool {
    DB_METAPAGE_SIZE <= bytes.len() && (has_magic_number(bytes) || page_size <= bytes.len())
}

/// A file that can be opened with pages of `page_size` bytes.
pub open spec fn openable(bytes: Seq<u8>, page_size: int) -> bool {
    &&& DB_METAPAGE_SIZE <= page_size
    &&& is_long_enough(bytes, page_size)
    &&& has_magic_number(bytes) ==> is_clean(bytes)
}

/// Why a file cannot be opened with pages of `page_size` bytes, if it cannot.
pub open spec fn opening_error(bytes: Seq<u8>, page_size: usize) -> Option<Error> {
    if page_size < DB_METAPAGE_SIZE {
        Some(Error::PageTooSmall { page_size })
    } else if !is_long_enough(bytes, page_size as int) {
        Some(Error::FileTooShort { page_size })
    } else if has_magic_number(bytes) && !is_clean(bytes) {
        Some(Error::NotClean)
    } else {
        None
    }
}

/// Whether `bytes` starts with the magic number.
pub(crate) fn starts_with_magic_number(bytes: &[u8]) -> (starts: bool)
    requires
        MAGICNUMBER_SIZE <= bytes@.len(),
    ensures
        starts == has_magic_number(bytes@),
{
    let starts: bool = bytes[0] == MAGICNUMBER[0] && bytes[1] == MAGICNUMBER[1] && bytes[2]
        == MAGICNUMBER[2] && bytes[3] == MAGICNUMBER[3];
    proof {
        let head = bytes@.subrange(0, MAGICNUMBER_SIZE as int);
        assert(head[0] == bytes@[0] && head[1] == bytes@[1] && head[2] == bytes@[2] && head[3]
            == bytes@[3]);
        if starts {
            assert(head =~= magic_number());
        }
    }
    starts
}

/// Whether a file can be opened with pages of `page_size` bytes.
pub fn check_openable(bytes: &[u8], page_size: usize) -> (checked: Result<(), Error>)
    ensures
        checked == (match opening_error(bytes@, page_size) {
            Some(error) => Err::<(), Error>(error),
            None => Ok::<(), Error>(()),
        }),
        checked is Ok <==> openable(bytes@, page_size as int),
{
    if page_size < DB_METAPAGE_SIZE {
        return Err(Error::PageTooSmall { page_size });
    }
    if bytes.len() < DB_METAPAGE_SIZE {
        return Err(Error::FileTooShort { page_size });
    }
    if starts_with_magic_number(bytes) {
        if bytes[TRANSACTION_0_OFFSET + ALLOCATOR_STATE_DIRTY_OFFSET] != 0 || bytes[
        TRANSACTION_1_OFFSET + ALLOCATOR_STATE_DIRTY_OFFSET] != 0 {
            return Err(Error::NotClean);
        }
    } else if bytes.len() < page_size {
        return Err(Error::FileTooShort { page_size });
    }
    Ok(())
}

/// A file starts with the magic number exactly where its first bytes spell "redb".
pub proof fn law_magic_number(bytes: Seq<u8>)
    requires
        4 <= bytes.len(),
    ensures
        has_magic_number(bytes) <==> bytes[0] == 114 && bytes[1] == 101 && bytes[2] == 100
            && bytes[3] == 98,
{
    let head = bytes.subrange(0, MAGICNUMBER_SIZE as int);
    assert(head[0] == bytes[0] && head[1] == bytes[1] && head[2] == bytes[2] && head[3]
        == bytes[3]);
    assert(magic_number()[0] == 114 && magic_number()[1] == 101 && magic_number()[2] == 100
        && magic_number()[3] == 98);
    if bytes[0] == 114 && bytes[1] == 101 && bytes[2] == 100 && bytes[3] == 98 {
        assert(head =~= magic_number());
    }
}

/// A file is clean exactly where the dirty flags of both slots are zero, whichever of
/// them is the primary.
pub proof fn law_clean(bytes: Seq<u8>)
    requires
        DB_METAPAGE_SIZE <= bytes.len(),
    ensures
        is_clean(bytes) <==> bytes[TRANSACTION_0_OFFSET + ALLOCATOR_STATE_DIRTY_OFFSET] == 0
            && bytes[TRANSACTION_1_OFFSET + ALLOCATOR_STATE_DIRTY_OFFSET] == 0,
{
}

/// Every file without the magic number that is at least a page long can be opened, with
/// pages that hold the metapage: whatever its bytes are and however long it is.
pub proof fn law_new_file_can_be_opened(bytes: Seq<u8>, page_size: usize)
    requires
        DB_METAPAGE_SIZE <= page_size <= bytes.len(),
        !(bytes[0] == 114 && bytes[1] == 101 && bytes[2] == 100 && bytes[3] == 98),
    ensures
        opening_error(bytes, page_size) == None::<Error>,
        openable(bytes, page_size as int),
{
    law_magic_number(bytes);
}

/// Every file with the magic number that holds the metapage, with both dirty flags
/// zero, can be opened, with pages that hold the metapage: whatever else it holds and
/// however long it is.
pub proof fn law_complete_file_can_be_opened(bytes: Seq<u8>, page_size: usize)
    requires
        DB_METAPAGE_SIZE <= page_size,
        DB_METAPAGE_SIZE <= bytes.len(),
        bytes[0] == 114 && bytes[1] == 101 && bytes[2] == 100 && bytes[3] == 98,
        bytes[TRANSACTION_0_OFFSET + ALLOCATOR_STATE_DIRTY_OFFSET] == 0,
        bytes[TRANSACTION_1_OFFSET + ALLOCATOR_STATE_DIRTY_OFFSET] == 0,
    ensures
        opening_error(bytes, page_size) == None::<Error>,
        openable(bytes, page_size as int),
{
    law_magic_number(bytes);
    law_clean(bytes);
}

/// A file is refused for one reason at most. It is refused because of the page size
/// exactly where a page cannot hold the metapage; otherwise because of its length
/// exactly where it cannot hold the metapage, or is new and cannot hold a page; and
/// otherwise because it is not clean exactly where it has the magic number and one of
/// the dirty flags is set.
pub proof fn law_refusals(bytes: Seq<u8>, page_size: usize)
    ensures
        ({
            let complete = bytes[0] == 114 && bytes[1] == 101 && bytes[2] == 100 && bytes[3] == 98;
            let dirty = bytes[TRANSACTION_0_OFFSET + ALLOCATOR_STATE_DIRTY_OFFSET] != 0
                || bytes[TRANSACTION_1_OFFSET + ALLOCATOR_STATE_DIRTY_OFFSET] != 0;
            let too_short = bytes.len() < DB_METAPAGE_SIZE || (!complete && bytes.len()
                < page_size);
            let error = opening_error(bytes, page_size);
            &&& error == Some(Error::PageTooSmall { page_size }) <==> page_size < DB_METAPAGE_SIZE
            &&& error == Some(Error::FileTooShort { page_size }) <==> page_size >= DB_METAPAGE_SIZE
                && too_short
            &&& error == Some(Error::NotClean) <==> page_size >= DB_METAPAGE_SIZE && !too_short
                && complete && dirty
            &&& error is None <==> page_size >= DB_METAPAGE_SIZE && !too_short && !(complete
                && dirty)
            &&& error is None <==> openable(bytes, page_size as int)
        }),
{
    if bytes.len() >= DB_METAPAGE_SIZE {
        law_magic_number(bytes);
        law_clean(bytes);
    }
}

/// Formatting leaves the pages as they are, up to where the allocator states begin,
/// clears the metapage and what lies between the pages and the allocator states, and
/// writes two allocator states at the end in which only the metapage is allocated. The
/// slots name them, and nothing else is left in the metapage.
pub proof fn law_formatted(bytes: Seq<u8>, page_size: int, num_pages: int)
    requires
        DB_METAPAGE_SIZE <= page_size <= bytes.len() <= usize::MAX,
        is_usable_page_count(bytes.len() as int, page_size, num_pages),
    ensures
        ({
            let file = formatted(bytes, page_size, num_pages);
            let size = (num_pages + 7) / 8;
            let first = bytes.len() - 2 * size;
            let second = bytes.len() - size;
            &&& file.len() == bytes.len()
            &&& forall|i: int|
                DB_METAPAGE_SIZE <= i < num_pages * page_size && i < first ==> #[trigger] file[i]
                    == bytes[i]
            &&& forall|i: int| num_pages * page_size <= i < first ==> #[trigger] file[i] == 0
            &&& forall|i: int|
                first <= i < bytes.len() ==> #[trigger] file[i] == (if i == first || i == second {
                    1
                } else {
                    0int
                })
            &&& file.subrange(136, 144) == be_bytes(first as u64)
            &&& file.subrange(144, 152) == be_bytes(size as u64)
            &&& file.subrange(264, 272) == be_bytes(second as u64)
            &&& file.subrange(272, 280) == be_bytes(size as u64)
            &&& forall|i: int|
                0 <= i < DB_METAPAGE_SIZE && i < first && !(136 <= i < 152) && !(264 <= i < 280)
                    ==> #[trigger] file[i] == 0
        }),
{
    let file = formatted(bytes, page_size, num_pages);
    let len = bytes.len() as int;
    let size = state_size(num_pages);
    lemma_usable_pages_in_file(len, page_size, num_pages);
    assert(page_size <= num_pages * page_size) by (nonlinear_arith)
        requires
            1 <= num_pages,
            0 <= page_size,
    ;
    assert(0u8 | (1u8 << 0u64) == 1) by (bit_vector);
    let initial = initial_allocator_state(num_pages);
    assert(initial.len() == size);
    assert(forall|i: int|
        0 <= i < size ==> #[trigger] initial[i] == (if i == 0 {
            1
        } else {
            0int
        }));
    assert(file.subrange(136, 144) =~= be_bytes((len - 2 * size) as u64));
    assert(file.subrange(144, 152) =~= be_bytes(size as u64));
    assert(file.subrange(264, 272) =~= be_bytes((len - size) as u64));
    assert(file.subrange(272, 280) =~= be_bytes(size as u64));
}

} // verus!
