//! The metapage: a header with the magic number and the primary bit, and two
//! transaction slots, one of which is the primary.
use crate::bytes::{
    be_bytes, be_value, copy_into, encode_u64, law_big_endian, lemma_be_bytes_of_be_value, read_u64,
    section_mut, splice, with_section,
};
use vstd::prelude::*;

verus! {

/// The page that holds the metapage.
pub const DB_METADATA_PAGE: u64 = 0;

/// The size of the magic number, which the file starts with.
pub const MAGICNUMBER_SIZE: usize = 4;

/// The byte that says which transaction slot is the primary.
pub const PRIMARY_BIT_OFFSET: usize = 4;

/// The size of a transaction slot.
pub const TRANSACTION_SIZE: usize = 128;

/// Where the first transaction slot starts.
pub const TRANSACTION_0_OFFSET: usize = 128;

/// Where the second transaction slot starts.
pub const TRANSACTION_1_OFFSET: usize = 256;

/// Where the root page number stands in a slot.
pub const ROOT_PAGE_OFFSET: usize = 0;

/// Where the start of the allocator state stands in a slot. The bytes it points
/// to are logically part of the metapage.
pub const ALLOCATOR_STATE_PTR_OFFSET: usize = 8;

/// Where the length of the allocator state stands in a slot.
pub const ALLOCATOR_STATE_LEN_OFFSET: usize = 16;

/// Where the flag stands in a slot that says that the allocator state is dirty.
pub const ALLOCATOR_STATE_DIRTY_OFFSET: usize = 24;

/// How much of the metapage is in use: up to the dirty flag of the second slot, and
/// with it.
pub const USED_METAPAGE_SIZE: usize = 281;

/// The number of a page.
#[derive(Copy, Clone, Debug, Ord, PartialOrd, Eq, PartialEq, Hash, Structural)]
pub struct PageNumber(pub u64);

impl PageNumber {
    /// The page number's bytes, most significant first.
    pub fn to_be_bytes(self) -> (encoded: [u8; 8])
        ensures
            encoded@ == be_bytes(self.0),
    {
        encode_u64(self.0)
    }
}

/// Marker for the right to use a metapage. It holds nothing and anyone can make one:
/// by itself it shuts nobody out. Of the one that a memory keeps for its own metapage
/// it holds that who has a reference to it uses that metapage, and who has a mutable
/// one uses it alone.
pub struct MetapageGuard;

/// Where the slot starts that `metapage` names as the primary.
pub open spec fn primary_offset(metapage: Seq<u8>) -> int {
    if metapage[PRIMARY_BIT_OFFSET as int] == 0 {
        TRANSACTION_0_OFFSET as int
    } else {
        TRANSACTION_1_OFFSET as int
    }
}

/// Where the other slot starts.
pub open spec fn secondary_offset(metapage: Seq<u8>) -> int {
    if metapage[PRIMARY_BIT_OFFSET as int] == 0 {
        TRANSACTION_1_OFFSET as int
    } else {
        TRANSACTION_0_OFFSET as int
    }
}

/// The slot that starts at `offset`.
pub open spec fn slot_at(metapage: Seq<u8>, offset: int) -> Seq<u8> {
    metapage.subrange(offset, offset + TRANSACTION_SIZE)
}

/// The primary slot of `metapage`.
pub open spec fn primary_slot(metapage: Seq<u8>) -> Seq<u8> {
    slot_at(metapage, primary_offset(metapage))
}

/// The secondary slot of `metapage`.
pub open spec fn secondary_slot(metapage: Seq<u8>) -> Seq<u8> {
    slot_at(metapage, secondary_offset(metapage))
}

/// The root page that a slot names; zero stands for none.
pub open spec fn slot_root(slot: Seq<u8>) -> Option<PageNumber> {
    let number = be_value(slot, ROOT_PAGE_OFFSET as int);
    if number == 0 {
        None
    } else {
        Some(PageNumber(number))
    }
}

/// Where a slot says that its allocator state starts.
pub open spec fn slot_allocator_start(slot: Seq<u8>) -> u64 {
    be_value(slot, ALLOCATOR_STATE_PTR_OFFSET as int)
}

/// How long a slot says that its allocator state is.
pub open spec fn slot_allocator_len(slot: Seq<u8>) -> u64 {
    be_value(slot, ALLOCATOR_STATE_LEN_OFFSET as int)
}

/// Where the allocator state of a slot starts in memory.
pub open spec fn slot_state_start(slot: Seq<u8>) -> int {
    slot_allocator_start(slot) as usize as int
}

/// Where the allocator state of a slot ends in memory.
pub open spec fn slot_state_end(slot: Seq<u8>) -> int {
    (slot_allocator_start(slot) + slot_allocator_len(slot)) as usize as int
}

/// The dirty flag of a slot, as it is stored.
pub open spec fn slot_dirty_byte(slot: Seq<u8>) -> u8 {
    slot[ALLOCATOR_STATE_DIRTY_OFFSET as int]
}

/// The primary slot.
pub fn get_primary(metapage: &[u8]) -> (slot: &[u8])
    requires
        primary_offset(metapage@) + TRANSACTION_SIZE <= metapage@.len(),
    ensures
        slot@ == primary_slot(metapage@),
{
    let start: usize = if metapage[PRIMARY_BIT_OFFSET] == 0 {
        TRANSACTION_0_OFFSET
    } else {
        TRANSACTION_1_OFFSET
    };
    let end: usize = start + TRANSACTION_SIZE;

    &metapage[start..end]
}

/// The secondary slot, to be changed in place.
pub fn get_secondary(metapage: &mut [u8]) -> (slot: &mut [u8])
    requires
        secondary_offset(old(metapage)@) + TRANSACTION_SIZE <= old(metapage)@.len(),
    ensures
        slot@ == secondary_slot(old(metapage)@),
        final(metapage)@ == with_section(
            old(metapage)@,
            secondary_offset(old(metapage)@),
            secondary_offset(old(metapage)@) + TRANSACTION_SIZE,
            final(slot)@,
        ),
{
    let start: usize = if metapage[PRIMARY_BIT_OFFSET] == 0 {
        TRANSACTION_1_OFFSET
    } else {
        TRANSACTION_0_OFFSET
    };
    let end: usize = start + TRANSACTION_SIZE;

    section_mut(metapage, start, end)
}

/// Reads a transaction slot.
pub struct TransactionAccessor<'a> {
    pub mem: &'a [u8],
    pub guard: &'a MetapageGuard,
}

impl<'a> TransactionAccessor<'a> {
    /// A reader of the slot `mem`.
    pub fn new(mem: &'a [u8], guard: &'a MetapageGuard) -> (accessor: Self)
        ensures
            accessor.mem@ == mem@,
            accessor.guard == guard,
    {
        TransactionAccessor { mem, guard }
    }

    /// The root page, if there is one.
    pub fn get_root_page(&self) -> (root: Option<PageNumber>)
        requires
            ROOT_PAGE_OFFSET + 8 <= self.mem@.len(),
        ensures
            root == slot_root(self.mem@),
    {
        let num: u64 = read_u64(self.mem, ROOT_PAGE_OFFSET);
        if num == 0 {
            None
        } else {
            Some(PageNumber(num))
        }
    }

    /// Where the allocator state starts and ends.
    pub fn get_allocator_data(&self) -> (range: (usize, usize))
        requires
            ALLOCATOR_STATE_LEN_OFFSET + 8 <= self.mem@.len(),
            slot_allocator_start(self.mem@) + slot_allocator_len(self.mem@) <= u64::MAX,
        ensures
            range.0 == slot_state_start(self.mem@),
            range.1 == slot_state_end(self.mem@),
    {
        let start: u64 = read_u64(self.mem, ALLOCATOR_STATE_PTR_OFFSET);
        let len: u64 = read_u64(self.mem, ALLOCATOR_STATE_LEN_OFFSET);
        (start as usize, (start + len) as usize)
    }

    /// Whether the allocator state is dirty.
    pub fn get_allocator_dirty(&self) -> (dirty: bool)
        requires
            ALLOCATOR_STATE_DIRTY_OFFSET < self.mem@.len(),
            slot_dirty_byte(self.mem@) <= 1,
        ensures
            dirty == (slot_dirty_byte(self.mem@) == 1),
    {
        self.mem[ALLOCATOR_STATE_DIRTY_OFFSET] != 0
    }

    /// Gives the guard back.
    pub fn into_guard(self) -> (guard: &'a MetapageGuard)
        ensures
            guard == self.guard,
    {
        self.guard
    }
}

/// Writes a transaction slot.
pub struct TransactionMutator<'a> {
    pub mem: &'a mut [u8],
    pub guard: &'a mut MetapageGuard,
}

impl<'a> TransactionMutator<'a> {
    /// A writer of the slot `mem`: what it leaves there is left in `mem`.
    pub fn new(mem: &'a mut [u8], guard: &'a mut MetapageGuard) -> (mutator: Self)
        ensures
            mutator.mem@ == old(mem)@,
            final(mutator.mem)@ == final(mem)@,
    {
        TransactionMutator { mem, guard }
    }

    /// Stores the root page.
    pub fn set_root_page(&mut self, page_number: PageNumber)
        requires
            ROOT_PAGE_OFFSET + 8 <= old(self).mem@.len(),
        ensures
            final(self).mem@ == splice(
                old(self).mem@,
                ROOT_PAGE_OFFSET as int,
                be_bytes(page_number.0),
            ),
            final(final(self).mem)@ == final(old(self).mem)@,
    {
        copy_into(self.mem, ROOT_PAGE_OFFSET, &page_number.to_be_bytes());
    }

    /// Stores where the allocator state starts and how long it is.
    pub fn set_allocator_data(&mut self, start: usize, len: usize)
        requires
            ALLOCATOR_STATE_LEN_OFFSET + 8 <= old(self).mem@.len(),
        ensures
            final(self).mem@ == splice(
                splice(
                    old(self).mem@,
                    ALLOCATOR_STATE_PTR_OFFSET as int,
                    be_bytes(start as u64),
                ),
                ALLOCATOR_STATE_LEN_OFFSET as int,
                be_bytes(len as u64),
            ),
            final(final(self).mem)@ == final(old(self).mem)@,
    {
        copy_into(self.mem, ALLOCATOR_STATE_PTR_OFFSET, &encode_u64(start as u64));
        copy_into(self.mem, ALLOCATOR_STATE_LEN_OFFSET, &encode_u64(len as u64));
    }

    /// Stores whether the allocator state is dirty.
    pub fn set_allocator_dirty(&mut self, dirty: bool)
        requires
            ALLOCATOR_STATE_DIRTY_OFFSET < old(self).mem@.len(),
        ensures
            final(self).mem@ == old(self).mem@.update(
                ALLOCATOR_STATE_DIRTY_OFFSET as int,
                if dirty {
                    1
                } else {
                    0
                },
            ),
            final(final(self).mem)@ == final(old(self).mem)@,
    {
        if dirty {
            self.mem[ALLOCATOR_STATE_DIRTY_OFFSET] = 1;
        } else {
            self.mem[ALLOCATOR_STATE_DIRTY_OFFSET] = 0;
        }
    }
}

/// Of the two slots, which follow each other in the metapage, the first is the primary
/// and the second the secondary where the primary bit is zero. Otherwise it is the
/// other way round.
pub proof fn law_slots(metapage: Seq<u8>)
    ensures
        ({
            let first = metapage.subrange(
                TRANSACTION_0_OFFSET as int,
                TRANSACTION_0_OFFSET + TRANSACTION_SIZE,
            );
            let second = metapage.subrange(
                TRANSACTION_1_OFFSET as int,
                TRANSACTION_1_OFFSET + TRANSACTION_SIZE,
            );
            let first_is_primary = metapage[PRIMARY_BIT_OFFSET as int] == 0;
            &&& slot_at(metapage, TRANSACTION_0_OFFSET as int) == first
            &&& slot_at(metapage, TRANSACTION_1_OFFSET as int) == second
            &&& first_is_primary ==> primary_slot(metapage) == first && secondary_slot(metapage)
                == second
            &&& !first_is_primary ==> primary_slot(metapage) == second && secondary_slot(metapage)
                == first
            &&& first_is_primary <==> primary_offset(metapage) == TRANSACTION_0_OFFSET
            &&& first_is_primary <==> secondary_offset(metapage) == TRANSACTION_1_OFFSET
            &&& primary_offset(metapage) + secondary_offset(metapage) == TRANSACTION_0_OFFSET
                + TRANSACTION_1_OFFSET
        }),
{
}

/// A slot starts with its root page, a big-endian number, and names none exactly where
/// all of its bytes are zero.
pub proof fn law_slot_root(slot: Seq<u8>)
    requires
        ROOT_PAGE_OFFSET + 8 <= slot.len(),
    ensures
        slot_root(slot) is None <==> slot.subrange(0, 8) == seq![0u8, 0, 0, 0, 0, 0, 0, 0],
        slot_root(slot) is Some ==> be_bytes(slot_root(slot)->Some_0.0) == slot.subrange(0, 8),
{
    lemma_be_bytes_of_be_value(slot, 0);
    law_big_endian(slot, 0);
    let root = slot.subrange(0, 8);
    assert(root[0] == slot[0] && root[1] == slot[1] && root[2] == slot[2] && root[3] == slot[3]
        && root[4] == slot[4] && root[5] == slot[5] && root[6] == slot[6] && root[7] == slot[7]);
    if slot_root(slot) is None {
        assert(root =~= seq![0u8, 0, 0, 0, 0, 0, 0, 0]);
    }
}

/// Behind the root page a slot holds the start and the length of its allocator state,
/// big-endian numbers too, and then the dirty flag.
pub proof fn law_slot_fields(slot: Seq<u8>)
    ensures
        16 <= slot.len() ==> be_bytes(slot_allocator_start(slot)) == slot.subrange(8, 16),
        24 <= slot.len() ==> be_bytes(slot_allocator_len(slot)) == slot.subrange(16, 24),
        24 < slot.len() ==> slot_dirty_byte(slot) == slot[24],
{
    if 16 <= slot.len() {
        lemma_be_bytes_of_be_value(slot, 8);
    }
    if 24 <= slot.len() {
        lemma_be_bytes_of_be_value(slot, 16);
    }
}

/// The allocator state of a slot lies from where the slot says that it starts, for as
/// many bytes as the slot says.
pub proof fn law_slot_state(slot: Seq<u8>)
    ensures
        slot_allocator_start(slot) <= usize::MAX ==> slot_state_start(slot) == slot_allocator_start(
            slot,
        ),
        slot_allocator_start(slot) + slot_allocator_len(slot) <= usize::MAX ==> slot_state_end(slot)
            == slot_allocator_start(slot) + slot_allocator_len(slot),
{
}

} // verus!
