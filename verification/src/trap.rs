//! Stateless decoder that classifies the raw hardware trap cause register
//! value into a semantic cause category.

use vstd::prelude::*;

verus! {

/// Semantic category of a hardware exception or interrupt, decoded from the
/// raw cause register value.
#[derive(Clone, Copy, Debug, PartialEq, Eq, Structural)]
pub enum TrapCause {
    SoftwareInterrupt,
    TimerInterrupt,
    ExternalInterrupt,
    InstructionAddressMisaligned,
    InstructionAccessFault,
    IllegalInstruction,
    Breakpoint,
    LoadAddressMisaligned,
    LoadAccessFault,
    StoreAddressMisaligned,
    StoreAccessFault,
    UserEnvironmentCall,
    SupervisorEnvironmentCall,
    InstructionPageFault,
    LoadPageFault,
    StorePageFault,
    ReservedInterrupt,
    PlatformInterrupt,
    ReservedException,
    CustomException,
}

/// Meaning of a raw cause value: the top bit is the interrupt flag, the low
/// 63 bits are the exception or interrupt code.
pub open spec fn classify_trap(raw: u64) -> TrapCause {
    let code = raw & 0x7fff_ffff_ffff_ffff;
    if raw >> 63 == 1 {
        if code == 1 {
            TrapCause::SoftwareInterrupt
        } else if code == 5 {
            TrapCause::TimerInterrupt
        } else if code == 9 {
            TrapCause::ExternalInterrupt
        } else if code < 16 {
            TrapCause::ReservedInterrupt
        } else {
            TrapCause::PlatformInterrupt
        }
    } else {
        if code == 0 {
            TrapCause::InstructionAddressMisaligned
        } else if code == 1 {
            TrapCause::InstructionAccessFault
        } else if code == 2 {
            TrapCause::IllegalInstruction
        } else if code == 3 {
            TrapCause::Breakpoint
        } else if code == 4 {
            TrapCause::LoadAddressMisaligned
        } else if code == 5 {
            TrapCause::LoadAccessFault
        } else if code == 6 {
            TrapCause::StoreAddressMisaligned
        } else if code == 7 {
            TrapCause::StoreAccessFault
        } else if code == 8 {
            TrapCause::UserEnvironmentCall
        } else if code == 9 {
            TrapCause::SupervisorEnvironmentCall
        } else if code == 12 {
            TrapCause::InstructionPageFault
        } else if code == 13 {
            TrapCause::LoadPageFault
        } else if code == 15 {
            TrapCause::StorePageFault
        } else if (24 <= code && code <= 31) || (48 <= code && code <= 63) {
            TrapCause::CustomException
        } else {
            TrapCause::ReservedException
        }
    }
}

impl From<u64> for TrapCause {
    fn from(val: u64) -> (cause: TrapCause)
        ensures
            cause == classify_trap(val),
    {
        let interrupt_bit = val >> 63;
        let exception_code = val & 0x7fff_ffff_ffff_ffff;

        if interrupt_bit == 1 {
            match exception_code {
                1 => TrapCause::SoftwareInterrupt,
                5 => TrapCause::TimerInterrupt,
                9 => TrapCause::ExternalInterrupt,
                c if c < 16 => TrapCause::ReservedInterrupt,
                _ => TrapCause::PlatformInterrupt,
            }
        } else {
            match exception_code {
                0 => TrapCause::InstructionAddressMisaligned,
                1 => TrapCause::InstructionAccessFault,
                2 => TrapCause::IllegalInstruction,
                3 => TrapCause::Breakpoint,
                4 => TrapCause::LoadAddressMisaligned,
                5 => TrapCause::LoadAccessFault,
                6 => TrapCause::StoreAddressMisaligned,
                7 => TrapCause::StoreAccessFault,
                8 => TrapCause::UserEnvironmentCall,
                9 => TrapCause::SupervisorEnvironmentCall,
                12 => TrapCause::InstructionPageFault,
                13 => TrapCause::LoadPageFault,
                15 => TrapCause::StorePageFault,
                c if (24 <= c && c <= 31) || (48 <= c && c <= 63) => TrapCause::CustomException,
                _ => TrapCause::ReservedException,
            }
        }
    }
}

impl vstd::std_specs::convert::FromSpecImpl<u64> for TrapCause {
    open spec fn obeys_from_spec() -> bool {
        true
    }

    open spec fn from_spec(v: u64) -> TrapCause {
        classify_trap(v)
    }
}

} // verus!
