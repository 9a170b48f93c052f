use sv39_core::page_allocator::PageAddr;
use sv39_core::page_allocator::PageAllocationError;
use sv39_core::page_allocator::PageAllocator;
use sv39_core::page_allocator::PageRange;
use sv39_core::page_allocator::PAGE_SIZE;

fn allocator_over(frames: u64) -> PageAllocator {
    let start = PageAddr { address: 0x8000_0000 };
    let end = PageAddr { address: 0x8000_0000 + (frames - 1) * PAGE_SIZE };
    PageAllocator::new(start, end)
}

#[test]
fn initialising_an_allocator_succeeds() {
    let allocator = allocator_over(1);
    assert_eq!(allocator.free_pages(), 1);
}

#[test]
fn allocating_one_page_succeeds() {
    let mut allocator = allocator_over(1);
    let page = allocator.allocate();
    assert!(page.is_ok());
    assert_eq!(page.unwrap().address, 0x8000_0000);
}

#[test]
fn allocating_two_pages_returns_highest_address_first() {
    let mut allocator = allocator_over(2);
    let first = allocator.allocate().unwrap();
    let second = allocator.allocate().unwrap();
    assert_eq!(first.address, 0x8000_1000);
    assert_eq!(second.address, 0x8000_0000);
}

#[test]
fn allocating_too_many_pages_fails() {
    let mut allocator = allocator_over(1);
    let _ = allocator.allocate();
    let second = allocator.allocate();
    assert!(matches!(second, Err(PageAllocationError::NoPagesAvailable)));
}

#[test]
fn exactly_n_allocations_succeed_before_exhaustion() {
    let n = 7;
    let mut allocator = allocator_over(n);
    for _ in 0..n {
        assert!(allocator.allocate().is_ok());
    }
    assert!(matches!(
        allocator.allocate(),
        Err(PageAllocationError::NoPagesAvailable)
    ));
}

#[test]
fn last_freed_frame_is_reused_first() {
    let mut allocator = allocator_over(2);
    let frame_a = allocator.allocate().unwrap();
    let frame_b = allocator.allocate().unwrap();
    assert!(frame_a.address > frame_b.address);

    allocator.dealloc(frame_b);
    allocator.dealloc(frame_a);

    assert_eq!(allocator.allocate().unwrap(), frame_a);
    assert_eq!(allocator.allocate().unwrap(), frame_b);
}

#[test]
fn deallocating_a_page_succeeds() {
    let mut allocator = allocator_over(1);
    let page = allocator.allocate().unwrap();
    allocator.dealloc(page);
    assert_eq!(allocator.free_pages(), 1);
}

#[test]
fn new_allocator_has_correct_number_of_pages() {
    let allocator = allocator_over(5);
    assert_eq!(allocator.free_pages(), 5);
}

#[test]
fn allocating_a_page_reduces_number_of_pages_by_one() {
    let mut allocator = allocator_over(5);
    let _ = allocator.allocate();
    assert_eq!(allocator.free_pages(), 4);
}

#[test]
fn deallocating_a_page_increases_number_of_pages_by_one() {
    let mut allocator = allocator_over(5);
    let page = allocator.allocate().unwrap();
    assert_eq!(allocator.free_pages(), 4);
    allocator.dealloc(page);
    assert_eq!(allocator.free_pages(), 5);
}

#[test]
fn after_allocating_all_pages_no_free_pages_are_left() {
    let mut allocator = allocator_over(2);
    let _ = allocator.allocate();
    let _ = allocator.allocate();
    assert_eq!(allocator.free_pages(), 0);
}

#[test]
fn page_range_yields_frames_in_ascending_order() {
    let mut range = PageRange::new(
        PageAddr { address: 0x8000_0000 },
        PageAddr { address: 0x8000_2000 },
    );
    assert_eq!(range.next(), Some(PageAddr { address: 0x8000_0000 }));
    assert_eq!(range.next(), Some(PageAddr { address: 0x8000_1000 }));
    assert_eq!(range.next(), Some(PageAddr { address: 0x8000_2000 }));
    assert_eq!(range.next(), None);
}

#[test]
fn empty_page_range_yields_nothing() {
    let mut range = PageRange::new(
        PageAddr { address: 0x8000_1000 },
        PageAddr { address: 0x8000_0000 },
    );
    assert_eq!(range.next(), None);
}
