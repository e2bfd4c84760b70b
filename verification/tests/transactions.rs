use memmap2::MmapMut;
use page_manager::bytes::read_u64;
use page_manager::metapage::PageNumber;
use page_manager::opening::{check_openable, Error};
use page_manager::memory::{Opening, TransactionalMemory};
use page_manager::pages::Page;
use page_manager::state::CommitStep;

const PAGE: usize = 4096;
const FIRST_DIRTY: usize = 128 + 24;
const SECOND_DIRTY: usize = 256 + 24;

fn map(len: usize) -> MmapMut {
    match MmapMut::map_anon(len) {
        Ok(mmap) => mmap,
        Err(error) => panic!("no memory: {}", error),
    }
}

fn finish(opening: Opening) -> TransactionalMemory {
    match opening {
        Opening::Ready(memory) => memory,
        Opening::Failed => panic!("a flush failed"),
        other => finish(other.advance(true)),
    }
}

fn open(len: usize) -> TransactionalMemory {
    finish(TransactionalMemory::open(map(len), PAGE))
}

fn commit(memory: &mut TransactionalMemory) {
    assert!(!memory.has_open_pages());
    let step = memory.begin_commit();
    assert_eq!(step, CommitStep::FlushPages);
    let step = memory.commit(step, memory.mapping().flush().is_ok());
    assert_eq!(step, CommitStep::FlushSwitch);
    let step = memory.commit(step, memory.mapping().flush().is_ok());
    assert_eq!(step, CommitStep::Done);
}

fn allocate(memory: &mut TransactionalMemory, byte: u8) -> PageNumber {
    assert!(memory.can_allocate());
    let mut page = memory.allocate();
    page.memory_mut()[0] = byte;
    let number = page.get_page_number();
    page.drop();
    number
}

fn copy(memory: &TransactionalMemory) -> MmapMut {
    let mut mmap = map(memory.mapping().len());
    mmap.copy_from_slice(memory.mapping());
    mmap
}

#[test]
fn machine_page_size_is_used() {
    let size = page_size::get();
    match TransactionalMemory::new(map(16 * size)) {
        Ok(opening) => {
            let memory = finish(opening);
            assert_eq!(memory.page_size(), size);
            assert_eq!(memory.num_pages(), 15);
        }
        Err(error) => panic!("not opened: {:?}", error),
    }
}

#[test]
fn usable_pages() {
    assert_eq!(TransactionalMemory::calculate_usable_pages(1 << 20, PAGE), 255);
    assert_eq!(TransactionalMemory::calculate_usable_pages(0, PAGE), 0);
    assert_eq!(TransactionalMemory::calculate_usable_pages(4095, PAGE), 0);
    assert_eq!(TransactionalMemory::calculate_usable_pages(4096, PAGE), 1);
    assert_eq!(TransactionalMemory::calculate_usable_pages(36865, PAGE), 8);
    assert_eq!(TransactionalMemory::calculate_usable_pages(36866, PAGE), 9);
    assert_eq!(TransactionalMemory::calculate_usable_pages(36868, PAGE), 9);
}

#[test]
fn new_file_layout() {
    let memory = open(1 << 20);
    let bytes: &[u8] = memory.mapping();
    assert_eq!(&bytes[0..4], b"redb");
    assert_eq!(bytes[4], 0);
    assert_eq!(read_u64(bytes, 128), 0);
    assert_eq!(read_u64(bytes, 128 + 8), (1 << 20) - 64);
    assert_eq!(read_u64(bytes, 128 + 16), 32);
    assert_eq!(read_u64(bytes, 256 + 8), (1 << 20) - 32);
    assert_eq!(read_u64(bytes, 256 + 16), 32);
    assert_eq!(bytes[FIRST_DIRTY], 0);
    assert_eq!(bytes[SECOND_DIRTY], 0);
    assert_eq!(bytes[(1 << 20) - 64], 1);
    assert_eq!(bytes[(1 << 20) - 32], 1);
    assert_eq!(memory.get_primary_root_page(), None);
    assert_eq!(memory.allocator_range(), Some(((1 << 20) - 32, 1 << 20)));
    assert_eq!(memory.page_size(), PAGE);
    assert_eq!(memory.num_pages(), 255);
    assert!(memory.has_primary());
}

#[test]
fn primary_bit_must_name_a_slot() {
    let mut mmap = map(384);
    mmap[0..4].copy_from_slice(b"redb");
    mmap[4] = 2;
    let memory = finish(TransactionalMemory::open(mmap, PAGE));
    assert!(!memory.has_primary());
    assert_eq!(memory.num_pages(), 0);
}

#[test]
fn formatting_zeroes_and_keeps_pages() {
    let mut mmap = map(36868);
    for byte in mmap.iter_mut() {
        *byte = 7;
    }
    let memory = finish(TransactionalMemory::open(mmap, PAGE));
    let bytes: &[u8] = memory.mapping();
    assert!(bytes[29..32].iter().all(|b| *b == 0));
    assert!(bytes[384..36864].iter().all(|b| *b == 7));
    assert_eq!(&bytes[36864..], &[1, 0, 1, 0]);
}

#[test]
fn opening_waits_for_flushes() {
    let opening = TransactionalMemory::open(map(1 << 16), PAGE);
    let opening = match opening {
        Opening::FlushFormat(ref memory) => {
            assert_eq!(&memory.mapping()[0..4], &[0, 0, 0, 0]);
            opening.advance(true)
        }
        _ => panic!("not formatted"),
    };
    match opening {
        Opening::FlushMagic(ref memory) => assert_eq!(&memory.mapping()[0..4], b"redb"),
        _ => panic!("no magic number"),
    }
    assert!(matches!(opening.advance(false), Opening::Failed));
    let opening = TransactionalMemory::open(map(1 << 16), PAGE);
    assert!(matches!(opening.advance(false), Opening::Failed));
}

#[test]
fn interrupted_formatting_starts_over() {
    let first = match TransactionalMemory::open(map(1 << 16), PAGE) {
        Opening::FlushFormat(memory) => memory,
        _ => panic!("not formatted"),
    };
    match TransactionalMemory::open(copy(&first), PAGE) {
        Opening::FlushFormat(again) => assert_eq!(&again.mapping()[..], &first.mapping()[..]),
        _ => panic!("not formatted again"),
    }
}

#[test]
fn openability() {
    assert_eq!(
        check_openable(&[0; 4096], 383),
        Err(Error::PageTooSmall { page_size: 383 })
    );
    assert_eq!(
        check_openable(&[0; 383], 384),
        Err(Error::FileTooShort { page_size: 384 })
    );
    assert_eq!(
        check_openable(&[0; 4095], 4096),
        Err(Error::FileTooShort { page_size: 4096 })
    );
    assert_eq!(check_openable(&[0; 4096], 4096), Ok(()));
    let mut file = [0; 384];
    file[0..4].copy_from_slice(b"redb");
    assert_eq!(check_openable(&file, 4096), Ok(()));
    file[FIRST_DIRTY] = 1;
    assert_eq!(check_openable(&file, 4096), Err(Error::NotClean));
    file[FIRST_DIRTY] = 0;
    file[SECOND_DIRTY] = 1;
    assert_eq!(check_openable(&file, 4096), Err(Error::NotClean));
}

#[test]
fn new_refuses_a_short_file() {
    let size = page_size::get();
    match TransactionalMemory::new(map(size - 1)) {
        Err(error) => assert_eq!(error, Error::FileTooShort { page_size: size }),
        Ok(_) => panic!("opened"),
    }
}

#[test]
fn allocated_pages_are_zeroed_and_open() {
    let mut memory = open(1 << 16);
    let first = allocate(&mut memory, 9);
    assert_eq!(first, PageNumber(1));
    memory.free(first);
    let page = memory.allocate();
    assert_eq!(page.get_page_number(), first);
    assert_eq!(page.memory().len(), PAGE);
    assert!(page.memory().iter().all(|b| *b == 0));
    assert!(memory.is_open(first));
    assert!(memory.has_open_pages());
    assert_eq!(memory.mapping()[SECOND_DIRTY], 1);
    let second = memory.allocate().get_page_number();
    assert_eq!(second, PageNumber(2));
    let mut page = memory.page_mut(first);
    page.memory_mut()[7] = 5;
    page.drop();
    assert!(!memory.is_open(first));
    assert!(memory.is_open(second));
    assert_eq!(memory.get_page(first).memory()[7], 5);
    memory.page_mut(second).drop();
    assert!(!memory.has_open_pages());
}

#[test]
fn page_is_read_back() {
    let mut memory = open(1 << 16);
    let first = allocate(&mut memory, 9);
    let second = allocate(&mut memory, 8);
    assert_eq!(memory.get_page(first).memory()[0], 9);
    assert_eq!(memory.get_page(second).memory()[0], 8);
    assert_eq!(memory.get_page(second).get_page_number(), second);
    commit(&mut memory);
    assert_eq!(memory.get_page(first).memory()[0], 9);
    assert_eq!(memory.get_page(second).memory()[0], 8);
}

#[test]
fn page_in_words() {
    let memory = open(1 << 17);
    assert_eq!(memory.get_page(PageNumber(7)).fmt(), "PageImpl: page_number=7");
    assert_eq!(memory.get_page(PageNumber(0)).fmt(), "PageImpl: page_number=0");
    assert_eq!(memory.get_page(PageNumber(30)).fmt(), "PageImpl: page_number=30");
}

#[test]
fn pages_run_out() {
    let mut memory = open(4 * PAGE);
    assert_eq!(memory.num_pages(), 3);
    allocate(&mut memory, 1);
    allocate(&mut memory, 2);
    assert!(!memory.can_allocate());
    memory.free(PageNumber(1));
    assert!(memory.can_allocate());
}

#[test]
fn commit_publishes_the_root() {
    let mut memory = open(1 << 16);
    memory.set_secondary_root_page(PageNumber(3));
    assert_eq!(memory.get_primary_root_page(), None);
    commit(&mut memory);
    assert_eq!(memory.get_primary_root_page(), Some(PageNumber(3)));
    memory.set_secondary_root_page(PageNumber(4));
    assert_eq!(memory.get_primary_root_page(), Some(PageNumber(3)));
    commit(&mut memory);
    assert_eq!(memory.get_primary_root_page(), Some(PageNumber(4)));
    memory.set_secondary_root_page(PageNumber(0));
    commit(&mut memory);
    assert_eq!(memory.get_primary_root_page(), None);
}

#[test]
fn commit_brings_both_allocator_states_together() {
    let mut memory = open(1 << 16);
    let len = memory.mapping().len();
    allocate(&mut memory, 1);
    let second = allocate(&mut memory, 2);
    memory.free(second);
    assert_eq!(&memory.mapping()[len - 4..], &[1, 0, 3, 0]);
    commit(&mut memory);
    assert_eq!(&memory.mapping()[len - 4..], &[3, 0, 3, 0]);
    assert_eq!(memory.mapping()[4], 1);
    assert_eq!(memory.mapping()[SECOND_DIRTY], 0);
    assert_eq!(memory.mapping()[FIRST_DIRTY], 1);
    assert_eq!(memory.allocator_range(), Some((len - 4, len - 2)));
}

#[test]
fn reused_page_is_lost_to_one_state() {
    let mut memory = open(1 << 16);
    let len = memory.mapping().len();
    let page = allocate(&mut memory, 1);
    commit(&mut memory);
    memory.free(page);
    assert_eq!(allocate(&mut memory, 1), page);
    commit(&mut memory);
    assert_eq!(&memory.mapping()[len - 4..], &[3, 0, 1, 0]);
}

#[test]
fn failed_flush_stops_a_commit() {
    let mut memory = open(1 << 16);
    memory.set_secondary_root_page(PageNumber(3));
    let page = allocate(&mut memory, 1);
    let before = copy(&memory);
    let step = memory.begin_commit();
    assert_eq!(memory.commit(step, false), CommitStep::Failed);
    assert_eq!(&memory.mapping()[..], &before[..]);
    let step = memory.commit(step, true);
    assert_eq!(memory.commit(step, false), CommitStep::Failed);
    assert_eq!(memory.get_primary_root_page(), Some(PageNumber(3)));
    assert_eq!(memory.commit(step, true), CommitStep::Done);
    assert_eq!(allocate(&mut memory, 1), PageNumber(page.0 + 1));
}

#[test]
fn rollback_restores() {
    let mut memory = open(1 << 16);
    let len = memory.mapping().len();
    let kept = allocate(&mut memory, 1);
    commit(&mut memory);
    let before = memory.mapping()[len - 4..].to_vec();
    allocate(&mut memory, 2);
    allocate(&mut memory, 3);
    memory.free(kept);
    assert_eq!(memory.rollback_uncommited_writes(), Ok(()));
    assert_eq!(&memory.mapping()[len - 4..], &before[..]);
    assert_eq!(allocate(&mut memory, 4), PageNumber(2));
}

#[test]
fn rollback_keeps_a_page_allocated_and_freed() {
    let mut memory = open(1 << 16);
    let len = memory.mapping().len();
    let page = allocate(&mut memory, 1);
    memory.free(page);
    assert_eq!(memory.rollback_uncommited_writes(), Ok(()));
    assert_eq!(&memory.mapping()[len - 4..], &[1, 0, 3, 0]);
}

#[test]
fn closed_file_reopens_and_dirty_file_does_not() {
    let mut memory = open(1 << 16);
    allocate(&mut memory, 1);
    memory.set_secondary_root_page(PageNumber(1));
    assert_eq!(
        check_openable(memory.mapping(), PAGE),
        Err(Error::NotClean)
    );
    commit(&mut memory);
    assert_eq!(
        check_openable(memory.mapping(), PAGE),
        Err(Error::NotClean)
    );
    assert!(!memory.drop(false));
    assert_eq!(
        check_openable(memory.mapping(), PAGE),
        Err(Error::NotClean)
    );
    assert!(memory.drop(true));
    assert_eq!(check_openable(memory.mapping(), PAGE), Ok(()));
    match TransactionalMemory::open(copy(&memory), PAGE) {
        Opening::Ready(again) => {
            assert_eq!(&again.mapping()[..], &memory.mapping()[..]);
            assert_eq!(again.get_primary_root_page(), Some(PageNumber(1)));
            assert_eq!(again.get_page(PageNumber(1)).memory()[0], 1);
        }
        _ => panic!("formatted again"),
    }
}

fn magic_file(len: usize) -> MmapMut {
    let mut mmap = map(len);
    mmap[0..4].copy_from_slice(b"redb");
    mmap
}

fn bytes_of(memory: &TransactionalMemory) -> Vec<u8> {
    memory.mapping().to_vec()
}

#[test]
fn suspended_page_stays_open() {
    let mut memory = open(1 << 16);
    let mut page = memory.allocate();
    page.memory_mut()[0] = 4;
    let first = page.get_page_number();
    page.suspend();
    let page = memory.allocate();
    let second = page.get_page_number();
    page.suspend();
    assert!(memory.is_open(first) && memory.is_open(second));
    let mut page = memory.page_mut(first);
    assert_eq!(page.memory()[0], 4);
    page.memory_mut()[1] = 5;
    page.drop();
    assert!(!memory.is_open(first) && memory.is_open(second));
    assert_eq!(&memory.get_page(first).memory()[0..3], &[4, 5, 0]);
    memory.page_mut(second).drop();
    commit(&mut memory);
}

#[test]
fn checked_opening_says_why_not() {
    let refused = |mmap: MmapMut, page_size: usize| match TransactionalMemory::open_checked(
        mmap, page_size,
    ) {
        Err(error) => error,
        Ok(_) => panic!("opened"),
    };
    assert_eq!(refused(map(PAGE), 383), Error::PageTooSmall { page_size: 383 });
    assert_eq!(refused(map(PAGE - 1), PAGE), Error::FileTooShort { page_size: PAGE });
    assert_eq!(refused(map(383), 384), Error::FileTooShort { page_size: 384 });
    let mut dirty = magic_file(384);
    dirty[FIRST_DIRTY] = 1;
    assert_eq!(refused(dirty, PAGE), Error::NotClean);
    assert!(matches!(
        TransactionalMemory::open_checked(map(PAGE), PAGE),
        Ok(Opening::FlushFormat(_))
    ));
    assert!(matches!(
        TransactionalMemory::open_checked(magic_file(384), PAGE),
        Ok(Opening::Ready(_))
    ));
}

#[test]
fn empty_allocator_states_can_be_committed_and_rolled_back() {
    let mut memory = finish(TransactionalMemory::open(magic_file(4 * PAGE), PAGE));
    assert_eq!(memory.num_pages(), 3);
    assert_eq!(memory.allocator_range(), Some((0, 0)));
    assert!(memory.can_replay());
    assert!(!memory.can_allocate());
    assert!(!memory.can_free(PageNumber(1)));
    let before = bytes_of(&memory);
    assert_eq!(memory.rollback_uncommited_writes(), Ok(()));
    assert_eq!(bytes_of(&memory), before);
    memory.set_secondary_root_page(PageNumber(2));
    commit(&mut memory);
    assert_eq!(memory.get_primary_root_page(), Some(PageNumber(2)));
}

#[test]
fn short_allocator_state_holds_its_pages() {
    let mut mmap = magic_file(20 * PAGE);
    // One byte of state for 19 pages, in each slot
    mmap[128 + 14] = 2;
    mmap[128 + 23] = 1;
    mmap[256 + 14] = 2;
    mmap[256 + 15] = 1;
    mmap[256 + 23] = 1;
    mmap[513] = 255;
    mmap[512] = 255;
    let mut memory = finish(TransactionalMemory::open(mmap, PAGE));
    assert_eq!(memory.num_pages(), 19);
    assert_eq!(memory.allocator_range(), Some((513, 514)));
    assert!(!memory.can_allocate());
    assert!(memory.can_free(PageNumber(7)));
    assert!(!memory.can_free(PageNumber(8)));
    memory.free(PageNumber(7));
    assert!(memory.can_replay());
    assert_eq!(memory.mapping()[513], 127);
    assert_eq!(memory.rollback_uncommited_writes(), Ok(()));
    assert_eq!(memory.mapping()[513], 255);
}

#[test]
fn pages_but_the_last_are_safe_in_a_tight_file() {
    // Nine pages reach two bytes into the first allocator state
    let mut memory = open(36866);
    assert_eq!(memory.num_pages(), 9);
    assert_eq!(memory.allocator_range(), Some((36864, 36866)));
    for page in 1..8 {
        assert_eq!(allocate(&mut memory, page as u8), PageNumber(page));
    }
    memory.set_secondary_root_page(PageNumber(7));
    commit(&mut memory);
    assert_eq!(memory.get_primary_root_page(), Some(PageNumber(7)));
    assert_eq!(&memory.mapping()[36862..], &[255, 0, 255, 0]);
    for page in 1..8 {
        assert_eq!(memory.get_page(PageNumber(page)).memory()[0], page as u8);
    }
    assert!(memory.drop(true));
    let again = finish(TransactionalMemory::open(copy(&memory), PAGE));
    assert_eq!(again.get_primary_root_page(), Some(PageNumber(7)));
    assert_eq!(again.num_pages(), 9);
}

#[test]
fn committed_root_survives_reopening_and_an_uncommitted_one_does_not() {
    let mut memory = open(1 << 16);
    let page = allocate(&mut memory, 6);
    memory.set_secondary_root_page(page);
    commit(&mut memory);
    let other = allocate(&mut memory, 7);
    memory.set_secondary_root_page(other);
    assert!(memory.drop(true));
    let closed = bytes_of(&memory);
    match TransactionalMemory::open_checked(copy(&memory), PAGE) {
        Ok(Opening::Ready(again)) => {
            assert_eq!(bytes_of(&again), closed);
            assert_eq!(again.get_primary_root_page(), Some(page));
            assert_eq!(again.get_page(page).memory()[0], 6);
            assert_eq!(again.get_page(other).memory()[0], 7);
            assert_eq!(again.allocator_range(), memory.allocator_range());
        }
        _ => panic!("not opened again"),
    }
}

#[test]
fn root_set_last_is_committed_and_kept() {
    let mut memory = open(1 << 16);
    memory.set_secondary_root_page(PageNumber(2));
    memory.set_secondary_root_page(PageNumber(3));
    let page = allocate(&mut memory, 1);
    memory.free(page);
    commit(&mut memory);
    assert_eq!(memory.get_primary_root_page(), Some(PageNumber(3)));
    memory.set_secondary_root_page(PageNumber(5));
    allocate(&mut memory, 1);
    assert_eq!(memory.rollback_uncommited_writes(), Ok(()));
    memory.free(PageNumber(4));
    assert_eq!(memory.get_primary_root_page(), Some(PageNumber(3)));
    assert_eq!(memory.mapping()[4], 1);
}

#[test]
fn two_commits_cancel() {
    let mut memory = open(1 << 16);
    memory.set_secondary_root_page(PageNumber(3));
    commit(&mut memory);
    memory.set_secondary_root_page(PageNumber(4));
    let bit = memory.mapping()[4];
    commit(&mut memory);
    assert_eq!(memory.get_primary_root_page(), Some(PageNumber(4)));
    commit(&mut memory);
    assert_eq!(memory.mapping()[4], bit);
    assert_eq!(memory.get_primary_root_page(), Some(PageNumber(3)));
}

#[test]
fn primary_is_clean_at_every_flush() {
    let mut memory = open(1 << 16);
    let primary_is_clean = |memory: &TransactionalMemory| match memory.mapping()[4] {
        0 => memory.mapping()[FIRST_DIRTY] == 0,
        1 => memory.mapping()[SECOND_DIRTY] == 0,
        _ => false,
    };
    for round in 0..3 {
        allocate(&mut memory, round);
        let mut step = memory.begin_commit();
        while step != CommitStep::Done {
            assert!(primary_is_clean(&memory));
            step = memory.commit(step, true);
        }
        assert!(primary_is_clean(&memory));
    }
}

#[test]
fn second_rollback_changes_nothing() {
    let mut memory = open(1 << 16);
    let kept = allocate(&mut memory, 1);
    commit(&mut memory);
    let committed = bytes_of(&memory);
    assert_eq!(memory.rollback_uncommited_writes(), Ok(()));
    assert_eq!(bytes_of(&memory), committed);
    allocate(&mut memory, 2);
    memory.free(kept);
    assert_eq!(memory.rollback_uncommited_writes(), Ok(()));
    let rolled_back = bytes_of(&memory);
    assert_eq!(memory.rollback_uncommited_writes(), Ok(()));
    assert_eq!(bytes_of(&memory), rolled_back);
}

#[test]
fn page_is_kept_until_it_is_handed_out_again() {
    let mut memory = open(1 << 16);
    let page = allocate(&mut memory, 9);
    commit(&mut memory);
    allocate(&mut memory, 1);
    assert_eq!(memory.rollback_uncommited_writes(), Ok(()));
    allocate(&mut memory, 2);
    memory.free(page);
    commit(&mut memory);
    assert_eq!(memory.get_page(page).memory()[0], 9);
    assert_eq!(allocate(&mut memory, 3), page);
    assert_eq!(memory.get_page(page).memory()[0], 3);
}

#[test]
fn metapage_is_never_handed_out() {
    let mut memory = open(6 * PAGE);
    let mut pages = Vec::new();
    while memory.can_allocate() {
        pages.push(allocate(&mut memory, 1).0);
    }
    assert_eq!(pages, vec![1, 2, 3, 4]);
    commit(&mut memory);
    assert!(!memory.can_allocate());
    assert_eq!(&memory.mapping()[0..4], b"redb");
}

#[test]
fn readable_pages() {
    let mut memory = open(36866);
    assert_eq!(memory.num_pages(), 9);
    assert!(memory.can_get_page(PageNumber(0)));
    assert!(memory.can_get_page(PageNumber(8)));
    assert!(!memory.can_get_page(PageNumber(9)));
    assert!(!memory.can_get_page(PageNumber(u64::MAX / 4096)));
    assert!(!memory.can_get_page(PageNumber(u64::MAX)));
    let page = memory.allocate();
    let number = page.get_page_number();
    page.suspend();
    assert!(!memory.can_get_page(number));
    memory.page_mut(number).drop();
    assert!(memory.can_get_page(number));
    // The file ends where the page does
    let memory = finish(TransactionalMemory::open(magic_file(2 * PAGE), PAGE));
    assert!(memory.can_get_page(PageNumber(1)));
    assert!(!memory.can_get_page(PageNumber(2)));
    let memory = finish(TransactionalMemory::open(magic_file(384), PAGE));
    assert!(!memory.can_get_page(PageNumber(0)));
}

#[test]
fn committed_page_is_left_alone_until_it_is_freed() {
    let mut memory = open(8 * PAGE);
    let page = allocate(&mut memory, 9);
    commit(&mut memory);
    let other = allocate(&mut memory, 1);
    assert_ne!(other, page);
    assert_eq!(memory.rollback_uncommited_writes(), Ok(()));
    while memory.can_allocate() {
        assert_ne!(allocate(&mut memory, 2), page);
    }
    commit(&mut memory);
    commit(&mut memory);
    memory.free(other);
    assert_eq!(allocate(&mut memory, 3), other);
    assert!(!memory.is_open(page));
    assert_eq!(memory.get_page(page).memory()[0], 9);
    memory.free(page);
    assert_eq!(allocate(&mut memory, 4), page);
    assert_eq!(memory.get_page(page).memory()[0], 4);
}
