use sv39_core::page_allocator::PageAddr;
use sv39_core::page_allocator::PageAllocator;
use sv39_core::page_allocator::PAGE_SIZE;
use sv39_core::page_table::MemoryLayout;
use sv39_core::page_table::PageTable;
use sv39_core::page_table::PageTableEntryMode;
use sv39_core::page_table::PhysicalAddress;
use sv39_core::page_table::VirtualAddress;
use sv39_core::page_table::VirtualMemory;
use sv39_core::page_table::TEST_DEVICE_MMIO_ADDRESS;
use sv39_core::page_table::UART_MMIO_ADDRESS;

const HEAP_BASE: u64 = 0x8000_0000;

fn allocator_over(frames: u64) -> PageAllocator {
    let start = PageAddr { address: HEAP_BASE };
    let end = PageAddr {
        address: HEAP_BASE + (frames - 1) * PAGE_SIZE,
    };
    PageAllocator::new(start, end)
}

fn virt(raw: u64) -> VirtualAddress {
    VirtualAddress::try_from(raw).unwrap()
}

#[test]
fn creating_a_new_page_table_reduces_free_page_count_by_1() {
    let mut allocator = allocator_over(10);
    let _ = PageTable::new(&mut allocator);
    assert_eq!(allocator.free_pages(), 9);
}

#[test]
fn walking_a_fresh_table_returns_none() {
    let mut allocator = allocator_over(10);
    let table = PageTable::new(&mut allocator).unwrap();
    assert!(table.walk(virt(0)).is_none());
    assert!(table.walk(virt(0x8000_0000)).is_none());
    assert!(table.walk(virt(0x3f_ffff_f000)).is_none());
    assert!(table.walk(virt(0xffff_ffc0_0000_0000)).is_none());
}

#[test]
fn walking_and_mapping_a_fresh_table_returns_ok() {
    let mut allocator = allocator_over(10);
    let mut table = PageTable::new(&mut allocator).unwrap();
    assert!(table.walk_and_map(virt(0), &mut allocator).is_ok());
}

#[test]
fn walking_and_mapping_a_fresh_table_reduces_page_count() {
    let mut allocator = allocator_over(10);
    let mut table = PageTable::new(&mut allocator).unwrap();
    table.walk_and_map(virt(0), &mut allocator).unwrap();
    assert_eq!(allocator.free_pages(), 7);
}

#[test]
fn walk_and_map_followed_by_walk_returns_the_identical_slot() {
    let mut allocator = allocator_over(128);
    let mut table = PageTable::new(&mut allocator).unwrap();
    let target = virt(0x8000_1000);
    let mapped_slot = table.walk_and_map(target, &mut allocator).unwrap();
    let walked_slot = table.walk(target).unwrap();
    assert_eq!(mapped_slot, walked_slot);
}

#[test]
fn walk_and_map_without_enough_frames_fails() {
    let mut allocator = allocator_over(2);
    let mut table = PageTable::new(&mut allocator).unwrap();
    // one frame left, two intermediate tables needed
    assert!(table.walk_and_map(virt(0), &mut allocator).is_err());
    assert_eq!(allocator.free_pages(), 0);
}

#[test]
fn map_then_translate_returns_the_allocated_frame() {
    let mut vm = VirtualMemory::new(allocator_over(10)).unwrap();
    // the root took the highest frame; the mapped target takes the next one
    let expected_frame = HEAP_BASE + 8 * PAGE_SIZE;
    vm.map(virt(0x1234), PageTableEntryMode::ReadWrite).unwrap();
    let translated = vm.translate(virt(0x1234)).unwrap();
    assert_eq!(translated, PhysicalAddress::new(expected_frame + 0x234));
    assert_eq!(translated.address & 0xfff, 0x234);
    assert_eq!(translated.address & !0xfff, expected_frame);
}

#[test]
fn identity_map_then_translate_returns_the_same_address() {
    let mut vm = VirtualMemory::new(allocator_over(10)).unwrap();
    let page = PageAddr { address: 0x2000_0000 };
    vm.identity_map(page, PageTableEntryMode::ReadWrite).unwrap();
    let translated = vm.translate(virt(0x2000_0000)).unwrap();
    assert_eq!(translated.address, 0x2000_0000);
}

#[test]
fn translate_of_an_unmapped_address_returns_none() {
    let mut vm = VirtualMemory::new(allocator_over(10)).unwrap();
    assert!(vm.translate(virt(0x5000_0000)).is_none());
    vm.map(virt(0x1000), PageTableEntryMode::ReadWrite).unwrap();
    // same level-0 table, different slot
    assert!(vm.translate(virt(0x2000)).is_none());
}

#[test]
fn pointer_mode_leaf_slot_does_not_translate() {
    let mut vm = VirtualMemory::new(allocator_over(10)).unwrap();
    vm.map(virt(0x1000), PageTableEntryMode::PageTablePointer)
        .unwrap();
    assert!(vm.translate(virt(0x1000)).is_none());
}

#[test]
fn map_without_frames_fails() {
    // a single frame: the root table takes it, nothing is left to map
    let mut vm = VirtualMemory::new(allocator_over(1)).unwrap();
    assert!(vm.map(virt(0), PageTableEntryMode::ReadWrite).is_err());
}

#[test]
fn satp_selects_sv39_and_names_the_root_frame() {
    let vm = VirtualMemory::new(allocator_over(4)).unwrap();
    let root_frame = HEAP_BASE + 3 * PAGE_SIZE;
    assert_eq!(vm.satp(), (8u64 << 60) | (root_frame >> 12));
}

#[test]
fn init_identity_maps_every_segment_and_both_mmio_windows() {
    let mut vm = VirtualMemory::new(allocator_over(64)).unwrap();
    let layout = MemoryLayout {
        text_start: 0x4000_0000,
        text_end: 0x4000_1fff,
        rodata_start: 0x4000_2000,
        rodata_end: 0x4000_2fff,
        data_start: 0x4000_3000,
        data_end: 0x4000_3fff,
        bss_start: 0x4000_4000,
        bss_end: 0x4000_4fff,
        stack_start: 0x4000_5000,
        stack_end: 0x4000_6fff,
        heap_start: 0x4000_7000,
        heap_end: 0x4000_8fff,
    };
    vm.init(&layout).unwrap();

    for page in [
        0x4000_0000u64,
        0x4000_1000,
        0x4000_2000,
        0x4000_3000,
        0x4000_4000,
        0x4000_5000,
        0x4000_6000,
        0x4000_7000,
        0x4000_8000,
        UART_MMIO_ADDRESS,
        TEST_DEVICE_MMIO_ADDRESS,
    ] {
        let translated = vm.translate(virt(page)).unwrap();
        assert_eq!(translated.address, page);
    }
}

#[test]
fn init_without_enough_frames_fails() {
    let mut vm = VirtualMemory::new(allocator_over(2)).unwrap();
    let layout = MemoryLayout {
        text_start: 0x4000_0000,
        text_end: 0x4000_ffff,
        rodata_start: 0x4001_0000,
        rodata_end: 0x4001_0fff,
        data_start: 0x4001_1000,
        data_end: 0x4001_1fff,
        bss_start: 0x4001_2000,
        bss_end: 0x4001_2fff,
        stack_start: 0x4001_3000,
        stack_end: 0x4001_3fff,
        heap_start: 0x4001_4000,
        heap_end: 0x4001_4fff,
    };
    assert!(vm.init(&layout).is_err());
}

#[test]
fn map_installs_the_requested_permission_mode() {
    let mut vm = VirtualMemory::new(allocator_over(10)).unwrap();
    vm.map(virt(0x1000), PageTableEntryMode::ReadExecute).unwrap();
    let slot = vm.root_table.walk(virt(0x1000)).unwrap();
    assert!(slot.entry.is_valid());
    assert!(slot.entry.is_readable());
    assert!(!slot.entry.is_writable());
    assert!(slot.entry.is_executable());
}

#[test]
fn identity_map_installs_the_requested_permission_mode() {
    let mut vm = VirtualMemory::new(allocator_over(10)).unwrap();
    let page = PageAddr { address: 0x2000_0000 };
    vm.identity_map(page, PageTableEntryMode::ReadOnly).unwrap();
    let slot = vm.root_table.walk(virt(0x2000_0000)).unwrap();
    assert!(slot.entry.is_valid());
    assert!(slot.entry.is_readable());
    assert!(!slot.entry.is_writable());
    assert!(!slot.entry.is_executable());
    assert_eq!(slot.entry.physical_page(), 0x2000_0000 >> 12);
}

#[test]
fn init_installs_each_segment_mode() {
    let mut vm = VirtualMemory::new(allocator_over(64)).unwrap();
    let layout = MemoryLayout {
        text_start: 0x4000_0000,
        text_end: 0x4000_0fff,
        rodata_start: 0x4000_1000,
        rodata_end: 0x4000_1fff,
        data_start: 0x4000_2000,
        data_end: 0x4000_2fff,
        bss_start: 0x4000_3000,
        bss_end: 0x4000_3fff,
        stack_start: 0x4000_4000,
        stack_end: 0x4000_4fff,
        heap_start: 0x4000_5000,
        heap_end: 0x4000_5fff,
    };
    vm.init(&layout).unwrap();

    let text = vm.root_table.walk(virt(0x4000_0000)).unwrap().entry;
    assert!(text.is_readable() && !text.is_writable() && text.is_executable());

    let rodata = vm.root_table.walk(virt(0x4000_1000)).unwrap().entry;
    assert!(rodata.is_readable() && !rodata.is_writable() && !rodata.is_executable());

    let heap = vm.root_table.walk(virt(0x4000_5000)).unwrap().entry;
    assert!(heap.is_readable() && heap.is_writable() && !heap.is_executable());

    let uart = vm.root_table.walk(virt(UART_MMIO_ADDRESS)).unwrap().entry;
    assert!(uart.is_readable() && uart.is_writable() && !uart.is_executable());
}

#[test]
fn repeated_walk_and_map_returns_the_same_slot_and_consumes_nothing() {
    let mut allocator = allocator_over(16);
    let mut table = PageTable::new(&mut allocator).unwrap();
    let target = virt(0x8000_1000);
    let first = table.walk_and_map(target, &mut allocator).unwrap();
    let frames_left = allocator.free_pages();
    let second = table.walk_and_map(target, &mut allocator).unwrap();
    assert_eq!(first, second);
    assert_eq!(allocator.free_pages(), frames_left);
}

#[test]
fn failed_walk_and_map_keeps_the_partially_built_path() {
    // two frames: the root takes one, leaving one of the two intermediate
    // tables the path needs, so the first attempt fails half way
    let mut allocator = allocator_over(2);
    let mut table = PageTable::new(&mut allocator).unwrap();
    assert!(table.walk_and_map(virt(0), &mut allocator).is_err());
    assert_eq!(allocator.free_pages(), 0);

    // the level-1 table installed before the failure persists: one more
    // frame now completes the path
    allocator.dealloc(PageAddr { address: 0x9000_0000 });
    assert!(table.walk_and_map(virt(0), &mut allocator).is_ok());
    assert_eq!(allocator.free_pages(), 0);
}

#[test]
fn init_succeeds_with_two_frames_per_mapped_page() {
    // 9 mapped pages (7 segment frames + 2 MMIO windows): 18 frames after
    // the root table are always enough
    let mut vm = VirtualMemory::new(allocator_over(19)).unwrap();
    let layout = MemoryLayout {
        text_start: 0x4000_0000,
        text_end: 0x4000_1fff,
        rodata_start: 0x4000_2000,
        rodata_end: 0x4000_2fff,
        data_start: 0x4000_3000,
        data_end: 0x4000_3fff,
        bss_start: 0x4000_4000,
        bss_end: 0x4000_4fff,
        stack_start: 0x4000_5000,
        stack_end: 0x4000_5fff,
        heap_start: 0x4000_6000,
        heap_end: 0x4000_6fff,
    };
    assert!(vm.init(&layout).is_ok());
}

#[test]
fn exported_table_image_matches_the_walked_slot() {
    let mut vm = VirtualMemory::new(allocator_over(10)).unwrap();
    let target = virt(0x8000_1000);
    vm.map(target, PageTableEntryMode::ReadWrite).unwrap();
    let slot = vm.root_table.walk(target).unwrap();

    // descend through the exported image to the leaf table
    let root = &vm.root_table;
    assert_eq!(root.frame_address(), HEAP_BASE + 9 * PAGE_SIZE);
    let level1 = root.child(target.page_table_index(2) as usize).unwrap();
    let level0 = level1.child(target.page_table_index(1) as usize).unwrap();
    assert_eq!(level0.frame_address(), slot.table_address);

    let values = level0.entry_values();
    assert_eq!(values.len(), 512);
    assert_eq!(values[slot.index], slot.entry.raw_value());

    // an intermediate entry names its child's frame in its page number
    let root_values = root.entry_values();
    let pointer = root_values[target.page_table_index(2) as usize];
    assert_eq!((pointer >> 10) << 12, level1.frame_address());
}
