//! Memory-management and trap-classification core of a single-hart RISC-V
//! (Sv39) kernel: a physical page-frame allocator, a three-level page-table
//! abstraction with mapping, identity-mapping and translation, canonical
//! virtual-address types, and a trap-cause decoder.
//!
//! Boot glue, the console driver and the trap entry vector are external
//! collaborators and live outside this crate.

pub mod page_allocator;
pub mod page_table;
pub mod trap;
