use page_manager::bytes::{copy_into, encode_u64, read_u64, section_mut, zero_fill};
use page_manager::metapage::{
    get_primary, get_secondary, MetapageGuard, PageNumber, TransactionAccessor, TransactionMutator,
};
use page_manager::page_allocator::PageAllocator;

#[test]
fn page_number_bytes() {
    assert_eq!(
        PageNumber(0x0102030405060708).to_be_bytes(),
        [1, 2, 3, 4, 5, 6, 7, 8]
    );
    assert_eq!(encode_u64(u64::MAX), [255; 8]);
    assert_eq!(read_u64(&[9, 1, 2, 3, 4, 5, 6, 7, 8], 1), 0x0102030405060708);
}

#[test]
fn byte_helpers() {
    let mut bytes = [1, 2, 3, 4, 5];
    copy_into(&mut bytes, 1, &[7, 8]);
    assert_eq!(bytes, [1, 7, 8, 4, 5]);
    zero_fill(&mut bytes, 3, 5);
    assert_eq!(bytes, [1, 7, 8, 0, 0]);
    section_mut(&mut bytes, 2, 4)[1] = 6;
    assert_eq!(bytes, [1, 7, 8, 6, 0]);
}

#[test]
fn slots_follow_the_primary_bit() {
    let mut metapage = [0; 384];
    metapage[128] = 1;
    metapage[256] = 2;
    assert_eq!(get_primary(&metapage)[0], 1);
    assert_eq!(get_secondary(&mut metapage)[0], 2);
    metapage[4] = 1;
    assert_eq!(get_primary(&metapage)[0], 2);
    assert_eq!(get_secondary(&mut metapage)[0], 1);
    get_secondary(&mut metapage)[5] = 9;
    assert_eq!(metapage[133], 9);
    assert_eq!(get_secondary(&mut metapage).len(), 128);
}

#[test]
fn slot_is_read_back() {
    let mut slot = [0; 128];
    let mut guard = MetapageGuard;
    assert_eq!(TransactionAccessor::new(&slot, &guard).get_root_page(), None);
    let mut mutator = TransactionMutator::new(&mut slot, &mut guard);
    mutator.set_root_page(PageNumber(258));
    mutator.set_allocator_data(1000, 24);
    mutator.set_allocator_dirty(true);
    let accessor = TransactionAccessor::new(&slot, &guard);
    assert_eq!(accessor.get_root_page(), Some(PageNumber(258)));
    assert_eq!(accessor.get_allocator_data(), (1000, 1024));
    assert!(accessor.get_allocator_dirty());
    let _guard: &MetapageGuard = accessor.into_guard();
    assert_eq!(&slot[0..8], &[0, 0, 0, 0, 0, 0, 1, 2]);
    TransactionMutator::new(&mut slot, &mut guard).set_allocator_dirty(false);
    assert!(!TransactionAccessor::new(&slot, &guard).get_allocator_dirty());
    assert!(slot[25..].iter().all(|b| *b == 0));
}

#[test]
fn allocator_bitmap() {
    assert_eq!(PageAllocator::required_space(0), 0);
    assert_eq!(PageAllocator::required_space(1), 1);
    assert_eq!(PageAllocator::required_space(8), 1);
    assert_eq!(PageAllocator::required_space(9), 2);
    let mut state = [255; 2];
    let allocator = PageAllocator::init_new(&mut state, 10);
    assert_eq!(state, [0, 0]);
    assert_eq!(allocator.num_pages(), 10);
    allocator.record_alloc(&mut state, 9);
    assert_eq!(state, [0, 2]);
    for page in 0..9 {
        assert_eq!(allocator.alloc_page(&mut state), Some(page));
    }
    assert_eq!(state, [255, 3]);
    assert_eq!(allocator.first_free(&state), None);
    assert_eq!(PageAllocator::new(10).alloc_page(&mut state), None);
    allocator.free(&mut state, 4);
    assert_eq!(state, [239, 3]);
    assert_eq!(allocator.first_free(&state), Some(4));
}
