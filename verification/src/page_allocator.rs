//! A page allocator whose state is a bitmap that the caller keeps in memory:
//! bit `page % 8` of byte `page / 8` is set while `page` is allocated.
use crate::bytes::{zero_fill, zeros};
use vstd::prelude::*;

verus! {

/// Hands out the pages `0..num_pages`. The state is not part of the allocator:
/// every operation takes the bytes that hold it.
#[derive(Copy, Clone, Debug)]
pub struct PageAllocator {
    num_pages: usize,
}

/// How many bytes of state `num_pages` pages take.
pub open spec fn state_size(num_pages: int) -> int {
    (num_pages + 7) / 8
}

/// The bit that stands for `page` in its byte.
pub open spec fn page_mask(page: u64) -> u8 {
    1u8 << (page % 8)
}

/// Whether `state` records `page` as allocated.
pub open spec fn is_allocated(state: Seq<u8>, page: u64) -> bool {
    state[(page / 8) as int] & page_mask(page) != 0
}

/// `state` with `page` recorded as allocated.
pub open spec fn with_page(state: Seq<u8>, page: u64) -> Seq<u8> {
    state.update((page / 8) as int, state[(page / 8) as int] | page_mask(page))
}

/// `state` with `page` recorded as free.
pub open spec fn without_page(state: Seq<u8>, page: u64) -> Seq<u8> {
    state.update((page / 8) as int, state[(page / 8) as int] & !page_mask(page))
}

/// `page` is the lowest of the first `num_pages` pages that `state` records as free.
pub open spec fn is_first_free(state: Seq<u8>, num_pages: int, page: u64) -> bool {
    &&& page < num_pages
    &&& !is_allocated(state, page)
    &&& forall|other: u64| other < page ==> #[trigger] is_allocated(state, other)
}

/// `state` records one of the first `num_pages` pages as free.
pub open spec fn has_free_page(state: Seq<u8>, num_pages: int) -> bool {
    exists|page: u64| page < num_pages && !#[trigger] is_allocated(state, page)
}

/// Recording a page as allocated changes that page and no other.
pub proof fn lemma_with_page(state: Seq<u8>, page: u64, other: u64)
    requires
        page / 8 < state.len(),
        other / 8 < state.len(),
    ensures
        is_allocated(with_page(state, page), other) <==> other == page || is_allocated(
            state,
            other,
        ),
{
    let byte = state[(other / 8) as int];
    assert((byte | (1u8 << (page % 8))) & (1u8 << (other % 8)) != 0 <==> (other % 8 == page % 8
        || byte & (1u8 << (other % 8)) != 0)) by (bit_vector);
}

/// Recording a page as free changes that page and no other.
pub proof fn lemma_without_page(state: Seq<u8>, page: u64, other: u64)
    requires
        page / 8 < state.len(),
        other / 8 < state.len(),
    ensures
        is_allocated(without_page(state, page), other) <==> other != page && is_allocated(
            state,
            other,
        ),
{
    let byte = state[(other / 8) as int];
    assert((byte & !(1u8 << (page % 8))) & (1u8 << (other % 8)) != 0 <==> (other % 8 != page % 8
        && byte & (1u8 << (other % 8)) != 0)) by (bit_vector);
}

/// A state of zeros records every page as free.
pub proof fn lemma_zeros_all_free(size: int, page: u64)
    requires
        page / 8 < size,
    ensures
        !is_allocated(zeros(size), page),
{
    assert(0u8 & (1u8 << (page % 8)) == 0) by (bit_vector);
}

impl PageAllocator {
    /// How many pages there are.
    pub closed spec fn page_count(self) -> int {
        self.num_pages as int
    }

    /// `state` is long enough to hold this allocator's bitmap.
    pub open spec fn fits(self, state: Seq<u8>) -> bool {
        state_size(self.page_count()) <= state.len()
    }

    /// How many bytes of state `num_pages` pages take.
    pub fn required_space(num_pages: usize) -> (size: usize)
        ensures
            size == state_size(num_pages as int),
    {
        if num_pages % 8 == 0 {
            num_pages / 8
        } else {
            num_pages / 8 + 1
        }
    }

    /// An allocator of `num_pages` pages over a state that exists already.
    pub fn new(num_pages: usize) -> (allocator: Self)
        ensures
            allocator.page_count() == num_pages,
    {
        PageAllocator { num_pages }
    }

    /// How many pages there are.
    pub fn num_pages(&self) -> (count: usize)
        ensures
            count == self.page_count(),
    {
        self.num_pages
    }

    /// An allocator of `num_pages` pages, with `mem` made a state in which all
    /// of them are free.
    pub fn init_new(mem: &mut [u8], num_pages: usize) -> (allocator: Self)
        requires
            state_size(num_pages as int) <= old(mem)@.len(),
        ensures
            allocator.page_count() == num_pages,
            final(mem)@ == zeros(old(mem)@.len() as int),
    {
        let end: usize = mem.len();
        zero_fill(mem, 0, end);
        assert(mem@ =~= zeros(old(mem)@.len() as int));
        PageAllocator { num_pages }
    }

    /// The lowest free page, if there is one.
    pub fn first_free(&self, mem: &[u8]) -> (free: Option<u64>)
        requires
            self.fits(mem@),
        ensures
            match free {
                Some(page) => is_first_free(mem@, self.page_count(), page),
                None => !has_free_page(mem@, self.page_count()),
            },
    {
        let mut page: u64 = 0;
        while page < self.num_pages as u64
            invariant
                self.fits(mem@),
                page <= self.num_pages,
                forall|other: u64| other < page ==> #[trigger] is_allocated(mem@, other),
            decreases self.num_pages - page,
        {
            if mem[(page / 8) as usize] & (1u8 << (page % 8)) == 0 {
                return Some(page);
            }
            page = page + 1;
        }
        None
    }

    /// Allocates the lowest free page, if there is one.
    pub fn alloc_page(&self, mem: &mut [u8]) -> (allocated: Option<u64>)
        requires
            self.fits(old(mem)@),
        ensures
            match allocated {
                Some(page) => is_first_free(old(mem)@, self.page_count(), page) && final(mem)@
                    == with_page(old(mem)@, page),
                None => !has_free_page(old(mem)@, self.page_count()) && final(mem)@ == old(mem)@,
            },
    {
        let free: Option<u64> = self.first_free(mem);
        match free {
            Some(page) => {
                self.record_alloc(mem, page);
            },
            None => {},
        }
        free
    }

    /// Records `page_number` as allocated.
    pub fn record_alloc(&self, mem: &mut [u8], page_number: u64)
        requires
            page_number / 8 < old(mem)@.len(),
        ensures
            final(mem)@ == with_page(old(mem)@, page_number),
    {
        assert(mem.len() == mem@.len());
        let index: usize = (page_number / 8) as usize;
        let byte: u8 = mem[index] | (1u8 << (page_number % 8));
        mem[index] = byte;
    }

    /// Records `page_number` as free.
    pub fn free(&self, mem: &mut [u8], page_number: u64)
        requires
            page_number / 8 < old(mem)@.len(),
        ensures
            final(mem)@ == without_page(old(mem)@, page_number),
    {
        assert(mem.len() == mem@.len());
        let index: usize = (page_number / 8) as usize;
        let byte: u8 = mem[index] & !(1u8 << (page_number % 8));
        mem[index] = byte;
    }
}

/// The state has a bit for every page, and no byte too many.
pub proof fn law_state_size(num_pages: int)
    requires
        0 <= num_pages,
    ensures
        num_pages <= 8 * state_size(num_pages) < num_pages + 8,
{
}

/// The pages stand in the state in order, eight to a byte, the lowest in the lowest
/// bit.
pub proof fn law_bitmap(state: Seq<u8>, page: u64)
    requires
        page / 8 < state.len(),
    ensures
        is_allocated(state, page) <==> (state[(page / 8) as int] >> (page % 8)) % 2 == 1,
{
    let byte = state[(page / 8) as int];
    assert(byte & (1u8 << (page % 8)) != 0 <==> (byte >> (page % 8)) % 2 == 1) by (bit_vector);
}

/// Recording a page as allocated, or as free, changes that page and no other.
pub proof fn law_record(state: Seq<u8>, page: u64)
    requires
        page / 8 < state.len(),
    ensures
        with_page(state, page).len() == state.len(),
        without_page(state, page).len() == state.len(),
        forall|other: u64|
            other / 8 < state.len() ==> (#[trigger] is_allocated(with_page(state, page), other)
                <==> other == page || is_allocated(state, other)),
        forall|other: u64|
            other / 8 < state.len() ==> (#[trigger] is_allocated(without_page(state, page), other)
                <==> other != page && is_allocated(state, other)),
{
    assert forall|other: u64| other / 8 < state.len() implies (#[trigger] is_allocated(
        with_page(state, page),
        other,
    ) <==> other == page || is_allocated(state, other)) by {
        lemma_with_page(state, page, other);
    }
    assert forall|other: u64| other / 8 < state.len() implies (#[trigger] is_allocated(
        without_page(state, page),
        other,
    ) <==> other != page && is_allocated(state, other)) by {
        lemma_without_page(state, page, other);
    }
}

/// A state is determined by the pages that it records: two states as long as each
/// other that record the same pages are the same bytes.
pub proof fn law_state_is_its_pages(a: Seq<u8>, b: Seq<u8>)
    requires
        a.len() == b.len(),
        8 * a.len() <= u64::MAX,
        forall|page: u64|
            page / 8 < a.len() ==> #[trigger] is_allocated(a, page) == is_allocated(b, page),
    ensures
        a == b,
{
    assert forall|i: int| 0 <= i < a.len() implies a[i] == b[i] by {
        let x = a[i];
        let y = b[i];
        let n = (8 * i) as u64;
        let marks = |page: u64| is_allocated(a, page) == is_allocated(b, page);
        assert(marks(n));
        assert(marks((n + 1) as u64));
        assert(marks((n + 2) as u64));
        assert(marks((n + 3) as u64));
        assert(marks((n + 4) as u64));
        assert(marks((n + 5) as u64));
        assert(marks((n + 6) as u64));
        assert(marks((n + 7) as u64));
        assert((x & (1u8 << 0u64) != 0) == (y & (1u8 << 0u64) != 0));
        assert((x & (1u8 << 1u64) != 0) == (y & (1u8 << 1u64) != 0));
        assert((x & (1u8 << 2u64) != 0) == (y & (1u8 << 2u64) != 0));
        assert((x & (1u8 << 3u64) != 0) == (y & (1u8 << 3u64) != 0));
        assert((x & (1u8 << 4u64) != 0) == (y & (1u8 << 4u64) != 0));
        assert((x & (1u8 << 5u64) != 0) == (y & (1u8 << 5u64) != 0));
        assert((x & (1u8 << 6u64) != 0) == (y & (1u8 << 6u64) != 0));
        assert((x & (1u8 << 7u64) != 0) == (y & (1u8 << 7u64) != 0));
        assert(x == y) by (bit_vector)
            requires
                (x & (1u8 << 0u64) != 0) == (y & (1u8 << 0u64) != 0),
                (x & (1u8 << 1u64) != 0) == (y & (1u8 << 1u64) != 0),
                (x & (1u8 << 2u64) != 0) == (y & (1u8 << 2u64) != 0),
                (x & (1u8 << 3u64) != 0) == (y & (1u8 << 3u64) != 0),
                (x & (1u8 << 4u64) != 0) == (y & (1u8 << 4u64) != 0),
                (x & (1u8 << 5u64) != 0) == (y & (1u8 << 5u64) != 0),
                (x & (1u8 << 6u64) != 0) == (y & (1u8 << 6u64) != 0),
                (x & (1u8 << 7u64) != 0) == (y & (1u8 << 7u64) != 0),
        ;
    }
    assert(a =~= b);
}

/// The page that is handed out is free and none below it is; there is no other such
/// page.
pub proof fn law_lowest_free_page(state: Seq<u8>, num_pages: int, page: u64, other: u64)
    requires
        is_first_free(state, num_pages, page),
    ensures
        page < num_pages,
        !is_allocated(state, page),
        other < page ==> is_allocated(state, other),
        is_first_free(state, num_pages, other) ==> other == page,
        has_free_page(state, num_pages),
{
}

/// Where a page is free, one is handed out, and it is that page or one below it.
pub proof fn law_free_page_is_found(state: Seq<u8>, num_pages: int, free: u64)
    requires
        free < num_pages,
        !is_allocated(state, free),
    ensures
        has_free_page(state, num_pages),
        exists|page: u64| page <= free && #[trigger] is_first_free(state, num_pages, page),
    decreases free,
{
    if !is_first_free(state, num_pages, free) {
        let lower = choose|lower: u64| lower < free && !#[trigger] is_allocated(state, lower);
        law_free_page_is_found(state, num_pages, lower);
    }
}

/// Where a page is handed out at all, one of the pages is free.
pub proof fn law_free_page_is_there(state: Seq<u8>, num_pages: int)
    requires
        has_free_page(state, num_pages),
    ensures
        exists|page: u64| page < num_pages && !#[trigger] is_allocated(state, page),
{
}

} // verus!
