use sv39_core::page_table::VirtualAddress;
use sv39_core::page_table::VirtualAddressError;

#[test]
fn low_value_is_accepted_unchanged() {
    let va = VirtualAddress::try_from(0x1234_5678u64).unwrap();
    assert_eq!(va.raw(), 0x1234_5678);
}

#[test]
fn bit_38_set_without_sign_extension_is_rejected() {
    let result = VirtualAddress::try_from(0x40_0000_0000u64);
    assert!(matches!(
        result,
        Err(VirtualAddressError::OutOfVirtualMemoryRange)
    ));
}

#[test]
fn sign_extended_value_is_accepted_unchanged() {
    let raw = 0xffff_ffc0_0000_1234u64;
    let va = VirtualAddress::try_from(raw).unwrap();
    assert_eq!(va.raw(), raw);
}

#[test]
fn high_garbage_bits_are_rejected() {
    let result = VirtualAddress::try_from(0x0100_0000_0000u64);
    assert!(matches!(
        result,
        Err(VirtualAddressError::OutOfVirtualMemoryRange)
    ));
}

#[test]
fn offset_returns_the_low_12_bits() {
    let va = VirtualAddress::try_from(0x8076_5432u64).unwrap();
    assert_eq!(va.offset(), 0x432);
}

#[test]
fn page_table_index_extracts_each_level() {
    // bits [30, 39) = 0x1, bits [21, 30) = 0x23, bits [12, 21) = 0x45
    let raw = (0x1u64 << 30) | (0x23u64 << 21) | (0x45u64 << 12) | 0x678;
    let va = VirtualAddress::try_from(raw).unwrap();
    assert_eq!(va.page_table_index(2), 0x1);
    assert_eq!(va.page_table_index(1), 0x23);
    assert_eq!(va.page_table_index(0), 0x45);
    assert_eq!(va.offset(), 0x678);
}

#[test]
fn indexes_and_offset_reassemble_the_address() {
    let raw = 0x12_3456_7890u64;
    let va = VirtualAddress::try_from(raw).unwrap();
    let rebuilt = (va.page_table_index(2) << 30)
        | (va.page_table_index(1) << 21)
        | (va.page_table_index(0) << 12)
        | va.offset();
    assert_eq!(rebuilt, raw);
}

#[test]
fn indexes_and_offset_reassemble_a_sign_extended_address() {
    let raw = 0xffff_ffd2_3456_7890u64;
    let va = VirtualAddress::try_from(raw).unwrap();
    let low = (va.page_table_index(2) << 30)
        | (va.page_table_index(1) << 21)
        | (va.page_table_index(0) << 12)
        | va.offset();
    assert_eq!(low | 0xffff_ff80_0000_0000, raw);
}

#[test]
fn frame_address_converts_like_its_raw_value() {
    let page = sv39_core::page_allocator::PageAddr {
        address: 0x8000_1000,
    };
    let va = VirtualAddress::try_from(page).unwrap();
    assert_eq!(va.raw(), 0x8000_1000);
}
