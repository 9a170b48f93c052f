use sv39_core::page_table::PageTableEntryBuilder;
use sv39_core::page_table::PageTableEntryMode;

#[test]
fn read_write_entry_sets_the_documented_bits() {
    let entry = PageTableEntryBuilder::new(0x8000_0000, PageTableEntryMode::ReadWrite).build();
    assert!(entry.is_valid());
    assert!(entry.is_readable());
    assert!(entry.is_writable());
    assert!(!entry.is_executable());
    assert!(entry.is_leaf());
    assert!(!entry.is_user_accessible());
    assert!(!entry.is_global());
    assert!(!entry.has_been_accessed());
    assert!(!entry.is_dirty());
    assert_eq!(entry.physical_page(), 0x8_0000);
}

#[test]
fn pointer_entry_is_valid_but_no_leaf() {
    let entry =
        PageTableEntryBuilder::new(0x8000_0000, PageTableEntryMode::PageTablePointer).build();
    assert!(entry.is_valid());
    assert!(!entry.is_leaf());
    assert!(!entry.is_readable());
    assert!(!entry.is_writable());
    assert!(!entry.is_executable());
}

#[test]
fn each_mode_sets_its_permission_bits() {
    let base = 0x4000_0000;
    let ro = PageTableEntryBuilder::new(base, PageTableEntryMode::ReadOnly).build();
    assert!(ro.is_readable() && !ro.is_writable() && !ro.is_executable());

    let xo = PageTableEntryBuilder::new(base, PageTableEntryMode::ExecuteOnly).build();
    assert!(!xo.is_readable() && !xo.is_writable() && xo.is_executable());

    let rx = PageTableEntryBuilder::new(base, PageTableEntryMode::ReadExecute).build();
    assert!(rx.is_readable() && !rx.is_writable() && rx.is_executable());

    let rwx = PageTableEntryBuilder::new(base, PageTableEntryMode::ReadWriteExecute).build();
    assert!(rwx.is_readable() && rwx.is_writable() && rwx.is_executable());
}

#[test]
fn user_and_global_flags_are_recorded() {
    let entry = PageTableEntryBuilder::new(0x4000_0000, PageTableEntryMode::ReadWrite)
        .user_accessible()
        .global_mapping()
        .build();
    assert!(entry.is_user_accessible());
    assert!(entry.is_global());
}

#[test]
fn invalid_entry_keeps_metadata_but_clears_the_valid_bit() {
    let entry = PageTableEntryBuilder::invalid(0xff).build();
    assert!(!entry.is_valid());
    assert!(entry.is_readable());
    assert!(entry.is_writable());
    assert!(entry.is_executable());
    assert!(entry.is_user_accessible());
    assert!(entry.is_global());
    assert!(entry.has_been_accessed());
    assert!(entry.is_dirty());
}

#[test]
fn physical_page_number_slices_split_the_page_number() {
    // page number bits: level 0 slice 0x45, level 1 slice 0x23, level 2 slice 0x1
    let address = (0x1u64 << 30) | (0x23u64 << 21) | (0x45u64 << 12);
    let entry = PageTableEntryBuilder::new(address, PageTableEntryMode::ReadOnly).build();
    assert_eq!(entry.physical_page_number_0(), 0x45);
    assert_eq!(entry.physical_page_number_1(), 0x23);
    assert_eq!(entry.physical_page_number_2(), 0x1);
    assert_eq!(entry.physical_page(), address >> 12);
}
