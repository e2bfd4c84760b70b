//! Transactional memory: pages of a mapped file, allocated and freed in
//! transactions that are committed or rolled back.
use crate::bytes::{copy_into, read_u64, section_mut, with_section, zero_fill, zeros};
use crate::layout::DB_METAPAGE_SIZE;
use crate::mapping::{
    is_machine_page_size, law_machine_page_size, machine_page_size, mapped, mapped_bytes,
    mapped_mut,
};
use crate::metapage::{
    get_primary, get_secondary, primary_slot, secondary_slot, slot_root, MetapageGuard, PageNumber,
    TransactionAccessor, TransactionMutator, ALLOCATOR_STATE_DIRTY_OFFSET,
    ALLOCATOR_STATE_LEN_OFFSET, ALLOCATOR_STATE_PTR_OFFSET, PRIMARY_BIT_OFFSET,
    TRANSACTION_0_OFFSET, TRANSACTION_1_OFFSET, TRANSACTION_SIZE,
};
use crate::opening::{
    check_openable, format_file, formatted, has_magic_number, openable, opening_error,
    starts_with_magic_number, Error, MAGICNUMBER,
};
use crate::page_allocator::{has_free_page, is_first_free, PageAllocator};
use crate::pages::{Page, PageImpl, PageMut};
use crate::state::{
    allocator_end, allocator_in_file, allocator_reachable, allocator_start, allocator_state,
    cleaned, commit_step, free_all, is_fresh, lemma_dirty_keeps_allocator_range, lemma_page_in_file,
    lemma_replay_length, page_allocated, page_freed, page_start, page_written, record_all,
    recordable, replayable, replayed, rolled_back, root_set, switched, with_allocated_page,
    with_magic_number, with_secondary_dirty, with_secondary_root, CommitStep, MemoryState,
};
use memmap2::MmapMut;
use std::collections::HashSet;
use vstd::prelude::*;
use vstd::slice::slice_to_vec;

verus! {

/// The pages of a mapped file.
pub struct TransactionalMemory {
    // Pages allocated since the last commit
    allocated_since_commit: Vec<PageNumber>,
    freed_since_commit: Vec<PageNumber>,
    // The metapage guard should be held when using this to modify the page allocator state
    page_allocator: PageAllocator,
    mmap: MmapMut,
    metapage_guard: MetapageGuard,
    // The PageMut which are outstanding
    open_dirty_pages: HashSet<u64>,
    // Asked of the machine once: it does not change while the process runs
    page_size: usize,
}

impl View for TransactionalMemory {
    type V = MemoryState;

    closed spec fn view(&self) -> MemoryState {
        MemoryState {
            bytes: mapped_bytes(self.mmap),
            page_size: self.page_size as int,
            num_pages: self.page_allocator.page_count(),
            allocated_since_commit: self.allocated_since_commit@,
            freed_since_commit: self.freed_since_commit@,
            open_pages: self.open_dirty_pages@,
        }
    }
}

/// What opening a file needs next.
pub enum Opening {
    /// The file is new and was formatted: the memory must be flushed before the
    /// magic number is written, to ensure that it is crash safe.
    FlushFormat(TransactionalMemory),
    /// The magic number was written: the memory must be flushed again.
    FlushMagic(TransactionalMemory),
    /// Nothing: the file is open.
    Ready(TransactionalMemory),
    /// Nothing: a flush failed.
    Failed,
}

/// What opening a file of `bytes` starts with: a new file is formatted, another
/// is left as it is.
pub open spec fn opens_as(opening: Opening, bytes: Seq<u8>, page_size: int) -> bool {
    match opening {
        Opening::FlushFormat(memory) => !has_magic_number(bytes) && is_fresh(
            memory@,
            formatted(bytes, page_size, memory@.num_pages),
            page_size,
        ),
        Opening::Ready(memory) => has_magic_number(bytes) && is_fresh(memory@, bytes, page_size),
        _ => false,
    }
}

/// What comes of opening a file of `bytes` with pages of `page_size` bytes: the
/// error where it cannot be opened, and what opening starts with where it can.
pub open spec fn opens_with(
    opened: Result<Opening, Error>,
    bytes: Seq<u8>,
    page_size: usize,
) -> bool {
    match opening_error(bytes, page_size) {
        Some(error) => opened == Err::<Opening, Error>(error),
        None => opened is Ok && opens_as(opened->Ok_0, bytes, page_size as int),
    }
}

impl Opening {
    /// The memory, where there is one.
    pub open spec fn memory(self) -> Option<TransactionalMemory> {
        match self {
            Opening::FlushFormat(memory) => Some(memory),
            Opening::FlushMagic(memory) => Some(memory),
            Opening::Ready(memory) => Some(memory),
            Opening::Failed => None,
        }
    }

    /// Goes on with opening a file, after the flush that `self` asks for.
    pub fn advance(self, flushed: bool) -> (next: Opening)
        requires
            self is FlushFormat || self is FlushMagic,
            self.memory().unwrap()@.valid(),
        ensures
            !flushed ==> next is Failed,
            flushed && self is FlushFormat ==> next is FlushMagic && next->FlushMagic_0@ == (
            MemoryState {
                bytes: with_magic_number(self->FlushFormat_0@.bytes),
                ..self->FlushFormat_0@
            }),
            flushed && self is FlushMagic ==> next == Opening::Ready(self->FlushMagic_0),
            flushed ==> next.memory().unwrap()@.valid(),
    {
        if !flushed {
            return Opening::Failed;
        }
        match self {
            Opening::FlushFormat(memory) => {
                let mut memory: TransactionalMemory = memory;
                memory.write_magic_number();
                Opening::FlushMagic(memory)
            },
            Opening::FlushMagic(memory) => Opening::Ready(memory),
            other => other,
        }
    }
}

impl TransactionalMemory {
    /// Opens a file with the page size of the machine, or says why it cannot be
    /// opened.
    pub fn new(mmap: MmapMut) -> (opened: Result<Opening, Error>)
        ensures
            exists|page_size: usize|
                is_machine_page_size(page_size) && #[trigger] opens_with(
                    opened,
                    mapped_bytes(mmap),
                    page_size,
                ),
    {
        proof {
            law_machine_page_size();
        }
        Self::open_checked(mmap, machine_page_size())
    }

    /// Opens a file with pages of `page_size` bytes, or says why it cannot be
    /// opened.
    pub fn open_checked(mmap: MmapMut, page_size: usize) -> (opened: Result<Opening, Error>)
        ensures
            opens_with(opened, mapped_bytes(mmap), page_size),
    {
        match check_openable(mapped(&mmap), page_size) {
            Ok(()) => Ok(Self::open(mmap, page_size)),
            Err(error) => Err(error),
        }
    }

    /// Opens a file with pages of `page_size` bytes. A file without the magic
    /// number is formatted.
    pub fn open(mmap: MmapMut, page_size: usize) -> (opening: Opening)
        requires
            openable(mapped_bytes(mmap), page_size as int),
        ensures
            opens_as(opening, mapped_bytes(mmap), page_size as int),
    {
        let mut mmap: MmapMut = mmap;
        let mut metapage_guard: MetapageGuard = MetapageGuard;
        let bytes: &[u8] = mapped(&mmap);
        let is_new: bool = !starts_with_magic_number(bytes);
        let usable_pages: usize = Self::calculate_usable_pages(bytes.len(), page_size);
        if is_new {
            format_file(mapped_mut(&mut mmap), page_size, usable_pages, &mut metapage_guard);
        }
        let memory = TransactionalMemory {
            allocated_since_commit: Vec::new(),
            freed_since_commit: Vec::new(),
            page_allocator: PageAllocator::new(usable_pages),
            mmap,
            metapage_guard,
            open_dirty_pages: HashSet::new(),
            page_size,
        };
        if is_new {
            Opening::FlushFormat(memory)
        } else {
            Opening::Ready(memory)
        }
    }

    /// Writes the magic number.
    fn write_magic_number(&mut self)
        requires
            old(self)@.valid(),
        ensures
            final(self)@ == (MemoryState {
                bytes: with_magic_number(old(self)@.bytes),
                ..old(self)@
            }),
            final(self)@.valid(),
    {
        copy_into(mapped_mut(&mut self.mmap), 0, &MAGICNUMBER);
    }

    /// The metapage, and the guard that says that nobody else uses it.
    fn acquire_mutable_metapage(&mut self) -> (acquired: (&mut [u8], &mut MetapageGuard))
        requires
            old(self)@.valid(),
        ensures
            acquired.0@ == old(self)@.bytes.subrange(0, DB_METAPAGE_SIZE as int),
            final(self)@ == (MemoryState {
                bytes: with_section(
                    old(self)@.bytes,
                    0,
                    DB_METAPAGE_SIZE as int,
                    final(acquired.0)@,
                ),
                ..old(self)@
            }),
    {
        (
            section_mut(mapped_mut(&mut self.mmap), 0, DB_METAPAGE_SIZE),
            &mut self.metapage_guard,
        )
    }

    /// The allocator state of the secondary slot, and the guard of the metapage,
    /// which it is part of.
    fn acquire_mutable_page_allocator(&mut self) -> (acquired: (&mut [u8], &mut MetapageGuard))
        requires
            old(self)@.valid(),
            allocator_in_file(old(self)@.bytes),
        ensures
            acquired.0@ == allocator_state(old(self)@.bytes),
            final(self)@ == (MemoryState {
                bytes: with_section(
                    old(self)@.bytes,
                    allocator_start(old(self)@.bytes),
                    allocator_end(old(self)@.bytes),
                    final(acquired.0)@,
                ),
                ..old(self)@
            }),
    {
        let (metapage, guard) = self.acquire_mutable_metapage();
        let ghost metapage_bytes = metapage@;
        assert(secondary_slot(metapage_bytes) =~= secondary_slot(old(self)@.bytes));
        let transaction = TransactionAccessor::new(get_secondary(metapage), guard);
        let (start, end) = transaction.get_allocator_data();
        assert(self@.bytes =~= old(self)@.bytes);
        (section_mut(mapped_mut(&mut self.mmap), start, end), &mut self.metapage_guard)
    }

    /// The first step of a commit. All open pages must have been dropped: this
    /// ensures that when a transaction completes no more writes can happen to
    /// the pages it allocated. Thus it is safe to make them visible to future
    /// read transactions.
    pub fn begin_commit(&self) -> (step: CommitStep)
        requires
            self@.open_pages.is_empty(),
        ensures
            step == CommitStep::FlushPages,
    {
        CommitStep::FlushPages
    }

    /// Goes on with a commit, after the flush that `step` asks for, and says what
    /// comes next. Commits all outstanding changes and makes them visible as the
    /// primary.
    pub fn commit(&mut self, step: CommitStep, flushed: bool) -> (next: CommitStep)
        requires
            old(self)@.valid(),
            step == CommitStep::FlushPages || step == CommitStep::FlushSwitch,
            step == CommitStep::FlushPages ==> old(self)@.open_pages.is_empty(),
            step == CommitStep::FlushPages && flushed
                ==> old(self)@.bytes[PRIMARY_BIT_OFFSET as int] <= 1,
            step == CommitStep::FlushSwitch && flushed ==> replayable(old(self)@),
        ensures
            (next, final(self)@) == commit_step(old(self)@, step, flushed),
            final(self)@.valid(),
    {
        if !flushed {
            return CommitStep::Failed;
        }
        match step {
            CommitStep::FlushPages => {
                self.switch_primary();
                CommitStep::FlushSwitch
            },
            _ => {
                self.replay();
                CommitStep::Done
            },
        }
    }

    /// Makes the secondary slot the primary.
    fn switch_primary(&mut self)
        requires
            old(self)@.valid(),
            old(self)@.bytes[PRIMARY_BIT_OFFSET as int] <= 1,
        ensures
            final(self)@ == (MemoryState { bytes: switched(old(self)@.bytes), ..old(self)@ }),
            final(self)@.valid(),
    {
        let next: u8 = if mapped(&self.mmap)[PRIMARY_BIT_OFFSET] == 0 {
            1
        } else {
            0
        };
        let (metapage, guard) = self.acquire_mutable_metapage();
        let mut mutator = TransactionMutator::new(get_secondary(metapage), guard);
        mutator.set_allocator_dirty(false);
        assert(self@.bytes =~= with_secondary_dirty(old(self)@.bytes, false));

        let (metapage, guard) = self.acquire_mutable_metapage();
        metapage[PRIMARY_BIT_OFFSET] = next;
        // Dirty the current primary (we just switched them on the previous line)
        let mut mutator = TransactionMutator::new(get_secondary(metapage), guard);
        mutator.set_allocator_dirty(true);
        assert(self@.bytes =~= switched(old(self)@.bytes));
    }

    /// Brings the allocator state of the secondary slot up to what was allocated
    /// and freed since the last commit.
    fn replay(&mut self)
        requires
            old(self)@.valid(),
            replayable(old(self)@),
        ensures
            final(self)@ == replayed(old(self)@),
            final(self)@.valid(),
    {
        let mut allocated: Vec<PageNumber> = Vec::new();
        core::mem::swap(&mut allocated, &mut self.allocated_since_commit);
        let mut freed: Vec<PageNumber> = Vec::new();
        core::mem::swap(&mut freed, &mut self.freed_since_commit);

        let page_allocator: PageAllocator = self.page_allocator;
        let (mem, _guard) = self.acquire_mutable_page_allocator();
        proof {
            lemma_replay_length(
                allocator_state(old(self)@.bytes),
                old(self)@.allocated_since_commit,
            );
            lemma_replay_length(
                record_all(allocator_state(old(self)@.bytes), old(self)@.allocated_since_commit),
                old(self)@.freed_since_commit,
            );
        }
        record_pages(page_allocator, mem, &allocated);
        free_pages(page_allocator, mem, &freed);
        assert(self@.bytes =~= replayed(old(self)@).bytes);
    }

    /// Takes back what was allocated and freed since the last commit.
    pub fn rollback_uncommited_writes(&mut self) -> (result: Result<(), Error>)
        requires
            old(self)@.valid(),
            old(self)@.open_pages.is_empty(),
            replayable(old(self)@),
        ensures
            result == Ok::<(), Error>(()),
            final(self)@ == rolled_back(old(self)@),
            final(self)@.valid(),
    {
        let mut allocated: Vec<PageNumber> = Vec::new();
        core::mem::swap(&mut allocated, &mut self.allocated_since_commit);
        let mut freed: Vec<PageNumber> = Vec::new();
        core::mem::swap(&mut freed, &mut self.freed_since_commit);

        let page_allocator: PageAllocator = self.page_allocator;
        let (mem, _guard) = self.acquire_mutable_page_allocator();
        proof {
            lemma_replay_length(
                allocator_state(old(self)@.bytes),
                old(self)@.allocated_since_commit,
            );
            lemma_replay_length(
                free_all(allocator_state(old(self)@.bytes), old(self)@.allocated_since_commit),
                old(self)@.freed_since_commit,
            );
        }
        free_pages(page_allocator, mem, &allocated);
        record_pages(page_allocator, mem, &freed);
        assert(self@.bytes =~= rolled_back(old(self)@).bytes);
        Ok(())
    }

    /// Whether a page can be read: it is not open for writing and lies in the file.
    pub fn can_get_page(&self, page_number: PageNumber) -> (can: bool)
        requires
            self@.valid(),
        ensures
            can == (!self@.open_pages.contains(page_number.0) && page_start(
                page_number,
                self@.page_size,
            ) + self@.page_size <= self@.bytes.len()),
    {
        let len: usize = mapped(&self.mmap).len();
        if self.is_open(page_number) {
            return false;
        }
        match (page_number.0 as usize).checked_mul(self.page_size) {
            Some(start) => start <= len && self.page_size <= len - start,
            None => false,
        }
    }

    /// The page `page_number`, which must not be open for writing.
    pub fn get_page(&self, page_number: PageNumber) -> (page: PageImpl<'_>)
        requires
            self@.valid(),
            !self@.open_pages.contains(page_number.0),
            page_start(page_number, self@.page_size) + self@.page_size <= self@.bytes.len(),
        ensures
            page.number() == page_number,
            page.bytes() == self@.bytes.subrange(
                page_start(page_number, self@.page_size),
                page_start(page_number, self@.page_size) + self@.page_size,
            ),
    {
        let start: usize = page_number.0 as usize * self.page_size;
        let end: usize = start + self.page_size;

        let bytes: &[u8] = mapped(&self.mmap);
        PageImpl::new(&bytes[start..end], page_number)
    }

    /// The root page of the last commit, if it has one.
    pub fn get_primary_root_page(&self) -> (root: Option<PageNumber>)
        requires
            self@.valid(),
        ensures
            root == slot_root(primary_slot(self@.bytes)),
    {
        TransactionAccessor::new(
            get_primary(mapped(&self.mmap)),
            &self.metapage_guard,
        ).get_root_page()
    }

    /// Stores the root page of the transaction that the next commit makes the
    /// primary.
    pub fn set_secondary_root_page(&mut self, root_page: PageNumber)
        requires
            old(self)@.valid(),
        ensures
            final(self)@ == root_set(old(self)@, root_page),
            final(self)@.valid(),
    {
        let (metapage, guard) = self.acquire_mutable_metapage();
        let mut mutator = TransactionMutator::new(get_secondary(metapage), guard);
        mutator.set_root_page(root_page);
        assert(self@.bytes =~= with_secondary_root(old(self)@.bytes, root_page));
    }

    /// Frees a page.
    pub fn free(&mut self, page: PageNumber)
        requires
            old(self)@.valid(),
            allocator_in_file(old(self)@.bytes),
            page.0 / 8 < allocator_end(old(self)@.bytes) - allocator_start(old(self)@.bytes),
            page.0 < old(self)@.num_pages,
        ensures
            final(self)@ == page_freed(old(self)@, page),
            final(self)@.valid(),
    {
        let page_allocator: PageAllocator = self.page_allocator;
        let (mem, _guard) = self.acquire_mutable_page_allocator();
        page_allocator.free(mem, page.0);
        self.freed_since_commit.push(page);
        assert(self@.bytes =~= page_freed(old(self)@, page).bytes);
    }

    /// Allocates the lowest free page, fills it with zeros and opens it for
    /// writing. The allocator state of the secondary slot is dirty from then on.
    pub fn allocate(&mut self) -> (page: PageMut<'_>)
        requires
            old(self)@.valid(),
            allocator_reachable(old(self)@.bytes, old(self)@.num_pages),
            has_free_page(
                allocator_state(with_secondary_dirty(old(self)@.bytes, true)),
                old(self)@.num_pages,
            ),
        ensures
            is_first_free(
                allocator_state(with_secondary_dirty(old(self)@.bytes, true)),
                old(self)@.num_pages,
                page.number().0,
            ),
            page.bytes() == zeros(old(self)@.page_size),
            page.open_pages() == old(self)@.open_pages.insert(page.number().0),
            final(self)@ == page_written(
                page_allocated(old(self)@, page.number()),
                page.number(),
                final(page.memory_source())@,
                final(page.open_pages_source())@,
            ),
            final(page.memory_source())@.len() == old(self)@.page_size ==> final(self)@.valid(),
    {
        broadcast use vstd::std_specs::hash::group_hash_axioms;

        let (metapage, guard) = self.acquire_mutable_metapage();
        let mut mutator = TransactionMutator::new(get_secondary(metapage), guard);
        mutator.set_allocator_dirty(true);
        let ghost marked = with_secondary_dirty(old(self)@.bytes, true);
        assert(self@.bytes =~= marked);
        proof {
            lemma_dirty_keeps_allocator_range(old(self)@.bytes, true);
        }

        let page_allocator: PageAllocator = self.page_allocator;
        let (mem, _guard) = self.acquire_mutable_page_allocator();
        let allocated: Option<u64> = page_allocator.alloc_page(mem);
        let page_number: PageNumber = PageNumber(allocated.unwrap());
        assert(self@.bytes =~= with_allocated_page(old(self)@.bytes, page_number));

        self.allocated_since_commit.push(page_number);
        self.open_dirty_pages.insert(page_number.0);

        proof {
            lemma_page_in_file(self@, page_number);
        }
        let start: usize = page_number.0 as usize * self.page_size;
        let end: usize = start + self.page_size;
        let size: usize = self.page_size;

        let mem: &mut [u8] = section_mut(mapped_mut(&mut self.mmap), start, end);
        // Zero the memory
        zero_fill(mem, 0, size);
        assert(mem@ =~= zeros(old(self)@.page_size));

        PageMut::new(mem, page_number, &mut self.open_dirty_pages)
    }

    /// A page that was allocated and not dropped since, to be written further.
    pub fn page_mut(&mut self, page_number: PageNumber) -> (page: PageMut<'_>)
        requires
            old(self)@.valid(),
            old(self)@.open_pages.contains(page_number.0),
            page_number.0 < old(self)@.num_pages,
        ensures
            page.number() == page_number,
            page.bytes() == old(self)@.bytes.subrange(
                page_start(page_number, old(self)@.page_size),
                page_start(page_number, old(self)@.page_size) + old(self)@.page_size,
            ),
            page.bytes().len() == old(self)@.page_size,
            page.open_pages() == old(self)@.open_pages,
            final(self)@ == page_written(
                old(self)@,
                page_number,
                final(page.memory_source())@,
                final(page.open_pages_source())@,
            ),
            final(page.memory_source())@.len() == old(self)@.page_size ==> final(self)@.valid(),
    {
        proof {
            lemma_page_in_file(self@, page_number);
        }
        let start: usize = page_number.0 as usize * self.page_size;
        let end: usize = start + self.page_size;

        let mem: &mut [u8] = section_mut(mapped_mut(&mut self.mmap), start, end);
        PageMut::new(mem, page_number, &mut self.open_dirty_pages)
    }

    /// Ends the use of the memory after a flush, which tells by `flushed` whether
    /// it worked: if it did, the allocator state of the secondary slot is clean,
    /// and the result says that the memory is to be flushed again.
    pub fn drop(&mut self, flushed: bool) -> (flush_again: bool)
        requires
            old(self)@.valid(),
        ensures
            flush_again == flushed,
            final(self)@ == (if flushed {
                cleaned(old(self)@)
            } else {
                old(self)@
            }),
            final(self)@.valid(),
    {
        if flushed {
            let (metapage, guard) = self.acquire_mutable_metapage();
            let mut mutator = TransactionMutator::new(get_secondary(metapage), guard);
            mutator.set_allocator_dirty(false);
            assert(self@.bytes =~= with_secondary_dirty(old(self)@.bytes, false));
        }
        flushed
    }

    /// The memory map, which the caller flushes.
    pub fn mapping(&self) -> (mmap: &MmapMut)
        ensures
            mapped_bytes(*mmap) == self@.bytes,
    {
        &self.mmap
    }

    /// The size of a page.
    pub fn page_size(&self) -> (size: usize)
        ensures
            size == self@.page_size,
    {
        self.page_size
    }

    /// How many pages the file holds.
    pub fn num_pages(&self) -> (count: usize)
        ensures
            count == self@.num_pages,
    {
        self.page_allocator.num_pages()
    }

    /// Whether the primary bit names a slot, as it must for a commit.
    pub fn has_primary(&self) -> (has: bool)
        requires
            self@.valid(),
        ensures
            has == (self@.bytes[PRIMARY_BIT_OFFSET as int] <= 1),
    {
        mapped(&self.mmap)[PRIMARY_BIT_OFFSET] <= 1
    }

    /// Whether a page is open for writing.
    pub fn is_open(&self, page_number: PageNumber) -> (open: bool)
        ensures
            open == self@.open_pages.contains(page_number.0),
    {
        broadcast use vstd::std_specs::hash::group_hash_axioms;

        self.open_dirty_pages.contains(&page_number.0)
    }

    /// Whether any page is open for writing.
    pub fn has_open_pages(&self) -> (some: bool)
        ensures
            some == !self@.open_pages.is_empty(),
    {
        broadcast use vstd::std_specs::hash::group_hash_axioms;

        !self.open_dirty_pages.is_empty()
    }

    /// Where the allocator state of the secondary slot starts and ends, if it lies
    /// in the file.
    pub fn allocator_range(&self) -> (range: Option<(usize, usize)>)
        requires
            self@.valid(),
        ensures
            range == (if allocator_in_file(self@.bytes) {
                Some((allocator_start(self@.bytes) as usize, allocator_end(self@.bytes) as usize))
            } else {
                None
            }),
    {
        let bytes: &[u8] = mapped(&self.mmap);
        let offset: usize = if bytes[PRIMARY_BIT_OFFSET] == 0 {
            TRANSACTION_1_OFFSET
        } else {
            TRANSACTION_0_OFFSET
        };
        let slot: &[u8] = &bytes[offset..offset + TRANSACTION_SIZE];
        let start: u64 = read_u64(slot, ALLOCATOR_STATE_PTR_OFFSET);
        let len: u64 = read_u64(slot, ALLOCATOR_STATE_LEN_OFFSET);
        if start > u64::MAX - len {
            return None;
        }
        let (start, end) = TransactionAccessor::new(
            slot,
            &self.metapage_guard,
        ).get_allocator_data();
        if start <= end && end <= bytes.len() {
            Some((start, end))
        } else {
            None
        }
    }

    /// Whether a page can be freed.
    pub fn can_free(&self, page: PageNumber) -> (can: bool)
        requires
            self@.valid(),
        ensures
            can == (allocator_in_file(self@.bytes) && page.0 / 8 < allocator_end(self@.bytes)
                - allocator_start(self@.bytes) && page.0 < self@.num_pages),
    {
        match self.allocator_range() {
            Some((start, end)) => page.0 / 8 < (end - start) as u64 && page.0
                < self.page_allocator.num_pages() as u64,
            None => false,
        }
    }

    /// Whether what was allocated and freed since the last commit can be recorded,
    /// as it must for a commit to complete and for a rollback.
    pub fn can_replay(&self) -> (can: bool)
        requires
            self@.valid(),
        ensures
            can == replayable(self@),
    {
        match self.allocator_range() {
            Some((start, end)) => are_recordable(&self.allocated_since_commit, end - start)
                && are_recordable(&self.freed_since_commit, end - start),
            None => false,
        }
    }

    /// Whether a page can be allocated.
    pub fn can_allocate(&self) -> (can: bool)
        requires
            self@.valid(),
        ensures
            can == (allocator_reachable(self@.bytes, self@.num_pages) && has_free_page(
                allocator_state(with_secondary_dirty(self@.bytes, true)),
                self@.num_pages,
            )),
    {
        match self.allocator_range() {
            Some((start, end)) => {
                let size: usize = PageAllocator::required_space(self.page_allocator.num_pages());
                if end - start < size {
                    return false;
                }
                let bytes: &[u8] = mapped(&self.mmap);
                let mut state: Vec<u8> = slice_to_vec(&bytes[start..end]);
                let flag: usize = ALLOCATOR_STATE_DIRTY_OFFSET + if bytes[PRIMARY_BIT_OFFSET] == 0 {
                    TRANSACTION_1_OFFSET
                } else {
                    TRANSACTION_0_OFFSET
                };
                if start <= flag && flag < end {
                    state[flag - start] = 1;
                }
                proof {
                    lemma_dirty_keeps_allocator_range(self@.bytes, true);
                }
                assert(state@ =~= allocator_state(with_secondary_dirty(self@.bytes, true)));
                self.page_allocator.first_free(&state).is_some()
            },
            None => false,
        }
    }
}

/// Whether an allocator state of `size` bytes has a byte for each of `pages`.
fn are_recordable(pages: &Vec<PageNumber>, size: usize) -> (are: bool)
    ensures
        are == recordable(pages@, size as int),
{
    let mut i: usize = 0;
    while i < pages.len()
        invariant
            i <= pages@.len(),
            recordable(pages@.take(i as int), size as int),
        decreases pages@.len() - i,
    {
        if pages[i].0 / 8 >= size as u64 {
            return false;
        }
        i = i + 1;
        assert(pages@.take(i as int) =~= pages@.take(i - 1).push(pages@[i - 1]));
    }
    assert(pages@.take(i as int) =~= pages@);
    true
}

/// Records all of `pages` as allocated.
fn record_pages(page_allocator: PageAllocator, mem: &mut [u8], pages: &Vec<PageNumber>)
    requires
        recordable(pages@, old(mem)@.len() as int),
    ensures
        final(mem)@ == record_all(old(mem)@, pages@),
{
    let mut i: usize = 0;
    while i < pages.len()
        invariant
            i <= pages@.len(),
            mem@.len() == old(mem)@.len(),
            recordable(pages@, mem@.len() as int),
            mem@ == record_all(old(mem)@, pages@.take(i as int)),
        decreases pages@.len() - i,
    {
        page_allocator.record_alloc(mem, pages[i].0);
        i = i + 1;
        assert(pages@.take(i as int).drop_last() =~= pages@.take(i - 1));
    }
    assert(pages@.take(i as int) =~= pages@);
}

/// Records all of `pages` as free.
fn free_pages(page_allocator: PageAllocator, mem: &mut [u8], pages: &Vec<PageNumber>)
    requires
        recordable(pages@, old(mem)@.len() as int),
    ensures
        final(mem)@ == free_all(old(mem)@, pages@),
{
    let mut i: usize = 0;
    while i < pages.len()
        invariant
            i <= pages@.len(),
            mem@.len() == old(mem)@.len(),
            recordable(pages@, mem@.len() as int),
            mem@ == free_all(old(mem)@, pages@.take(i as int)),
        decreases pages@.len() - i,
    {
        page_allocator.free(mem, pages[i].0);
        i = i + 1;
        assert(pages@.take(i as int).drop_last() =~= pages@.take(i - 1));
    }
    assert(pages@.take(i as int) =~= pages@);
}

} // verus!
