use sv39_core::trap::TrapCause;

#[test]
fn timer_interrupt_is_decoded() {
    assert_eq!(
        TrapCause::from(0x8000_0000_0000_0005u64),
        TrapCause::TimerInterrupt
    );
}

#[test]
fn instruction_page_fault_is_decoded() {
    assert_eq!(TrapCause::from(12u64), TrapCause::InstructionPageFault);
}

#[test]
fn low_unassigned_interrupt_code_is_reserved() {
    assert_eq!(
        TrapCause::from((1u64 << 63) | 2),
        TrapCause::ReservedInterrupt
    );
}

#[test]
fn software_and_external_interrupts_are_decoded() {
    assert_eq!(
        TrapCause::from((1u64 << 63) | 1),
        TrapCause::SoftwareInterrupt
    );
    assert_eq!(
        TrapCause::from((1u64 << 63) | 9),
        TrapCause::ExternalInterrupt
    );
}

#[test]
fn high_interrupt_codes_are_platform_defined() {
    assert_eq!(
        TrapCause::from((1u64 << 63) | 16),
        TrapCause::PlatformInterrupt
    );
    assert_eq!(
        TrapCause::from((1u64 << 63) | 1000),
        TrapCause::PlatformInterrupt
    );
}

#[test]
fn named_exception_codes_are_decoded() {
    let cause: TrapCause = 0u64.into();
    assert_eq!(cause, TrapCause::InstructionAddressMisaligned);
    assert_eq!(TrapCause::from(1u64), TrapCause::InstructionAccessFault);
    assert_eq!(TrapCause::from(2u64), TrapCause::IllegalInstruction);
    assert_eq!(TrapCause::from(3u64), TrapCause::Breakpoint);
    assert_eq!(TrapCause::from(4u64), TrapCause::LoadAddressMisaligned);
    assert_eq!(TrapCause::from(5u64), TrapCause::LoadAccessFault);
    assert_eq!(TrapCause::from(6u64), TrapCause::StoreAddressMisaligned);
    assert_eq!(TrapCause::from(7u64), TrapCause::StoreAccessFault);
    assert_eq!(TrapCause::from(8u64), TrapCause::UserEnvironmentCall);
    assert_eq!(TrapCause::from(9u64), TrapCause::SupervisorEnvironmentCall);
    assert_eq!(TrapCause::from(13u64), TrapCause::LoadPageFault);
    assert_eq!(TrapCause::from(15u64), TrapCause::StorePageFault);
}

#[test]
fn custom_exception_code_ranges_are_decoded() {
    assert_eq!(TrapCause::from(24u64), TrapCause::CustomException);
    assert_eq!(TrapCause::from(31u64), TrapCause::CustomException);
    assert_eq!(TrapCause::from(48u64), TrapCause::CustomException);
    assert_eq!(TrapCause::from(63u64), TrapCause::CustomException);
}

#[test]
fn unassigned_exception_codes_are_reserved() {
    assert_eq!(TrapCause::from(10u64), TrapCause::ReservedException);
    assert_eq!(TrapCause::from(11u64), TrapCause::ReservedException);
    assert_eq!(TrapCause::from(14u64), TrapCause::ReservedException);
    assert_eq!(TrapCause::from(32u64), TrapCause::ReservedException);
    assert_eq!(TrapCause::from(64u64), TrapCause::ReservedException);
}
