//! Sv39 virtual-address types, page-table entries and the three-level page
//! table with mapping, identity mapping and translation.
//!
//! The bit layout of a page-table entry and the canonical-address rule are
//! the hardware contract: bit 0 is the valid bit, bits 1 to 7 carry the
//! read/write/execute/user/global/accessed/dirty flags, and bits 10 to 53
//! hold the 44-bit physical page number.  A virtual address is canonical
//! when bits 39 to 63 equal bit 38.

use vstd::prelude::*;

use crate::page_allocator::frame_addr_wf;
use crate::page_allocator::frame_seq;
use crate::page_allocator::PageAddr;
use crate::page_allocator::PageAllocationError;
use crate::page_allocator::PageAllocator;
use crate::page_allocator::PageRange;
use crate::page_allocator::PAGE_SIZE;

verus! {

/// A translated output address.
#[derive(Clone, Copy, Debug, PartialEq, Eq, Structural)]
pub struct PhysicalAddress {
    pub address: u64,
}

impl PhysicalAddress {
    pub fn new(address: u64) -> (r: Self)
        ensures
            r.address == address,
    {
        Self { address }
    }
}

impl From<u64> for PhysicalAddress {
    fn from(value: u64) -> (r: Self) {
        Self::new(value)
    }
}

impl vstd::std_specs::convert::FromSpecImpl<u64> for PhysicalAddress {
    open spec fn obeys_from_spec() -> bool {
        true
    }

    open spec fn from_spec(v: u64) -> PhysicalAddress {
        PhysicalAddress { address: v }
    }
}

#[derive(Clone, Copy, Debug, PartialEq, Eq, Structural)]
pub enum VirtualAddressError {
    OutOfVirtualMemoryRange,
}

/// The canonical-form rule: bits 39 to 63 must all equal bit 38, so the 26
/// top bits of the raw value are either all clear or all set.
pub open spec fn canonical(value: u64) -> bool {
    value >> 38 == 0 || value >> 38 == 0x3ff_ffff
}

/// The 9-bit table index of virtual address `va` for table level `level`
/// (0 = leaf level, 2 = root level): bits `[12 + 9 * level, 21 + 9 * level)`.
pub open spec fn table_index(va: u64, level: u64) -> u64
    recommends
        level <= 2,
{
    (va >> ((12 + 9 * level) as u64)) & 0x1ff
}

/// A canonical 39-bit virtual address.  Values of this type are constructed
/// only through the validating conversion, so the stored raw value always
/// satisfies `canonical`.
#[derive(Clone, Copy, Debug, PartialEq, Eq, Structural)]
pub struct VirtualAddress {
    value: u64,
}

impl View for VirtualAddress {
    type V = u64;

    closed spec fn view(&self) -> u64 {
        self.value
    }
}

impl VirtualAddress {
    /// The stored raw value, canonical by construction.
    pub fn raw(&self) -> (value: u64)
        ensures
            value == self@,
    {
        self.value
    }

    /// Extracts the 9-bit index for table level `level`.
    pub fn page_table_index(&self, level: u64) -> (index: u64)
        requires
            level <= 2,
        ensures
            index == table_index(self@, level),
            index < 512,
    {
        let shift = 12 + level * 9;
        let value = self.value;
        let index = (value >> shift) & 0x1ff;
        proof {
            assert((value >> shift) & 0x1ff < 512) by (bit_vector);
        }
        index
    }

    /// The low 12 bits: the byte offset within a frame.
    pub fn offset(&self) -> (off: u64)
        ensures
            off == self@ & 0xfff,
            off < 4096,
    {
        let value = self.value;
        let off = value & 0xfff;
        proof {
            assert(value & 0xfff < 4096) by (bit_vector);
        }
        off
    }
}

/// Validating conversion: accepts exactly the canonical raw values and
/// stores the accepted value unchanged; anything whose bits 39 to 63 do not
/// sign-extend bit 38 is rejected with `OutOfVirtualMemoryRange`.
impl TryFrom<u64> for VirtualAddress {
    type Error = VirtualAddressError;

    fn try_from(value: u64) -> Result<Self, Self::Error> {
        let high = value >> 38;
        if high == 0 || high == 0x3ff_ffff {
            Ok(VirtualAddress { value })
        } else {
            Err(VirtualAddressError::OutOfVirtualMemoryRange)
        }
    }
}

impl vstd::std_specs::convert::TryFromSpecImpl<u64> for VirtualAddress {
    closed spec fn obeys_try_from_spec() -> bool {
        true
    }

    closed spec fn try_from_spec(v: u64) -> Result<VirtualAddress, VirtualAddressError> {
        if canonical(v) {
            Ok(VirtualAddress { value: v })
        } else {
            Err(VirtualAddressError::OutOfVirtualMemoryRange)
        }
    }
}

/// A frame address is converted like its raw value.
impl TryFrom<PageAddr> for VirtualAddress {
    type Error = VirtualAddressError;

    fn try_from(value: PageAddr) -> Result<Self, Self::Error> {
        VirtualAddress::try_from(value.address)
    }
}

impl vstd::std_specs::convert::TryFromSpecImpl<PageAddr> for VirtualAddress {
    closed spec fn obeys_try_from_spec() -> bool {
        true
    }

    closed spec fn try_from_spec(v: PageAddr) -> Result<VirtualAddress, VirtualAddressError> {
        if canonical(v.address) {
            Ok(VirtualAddress { value: v.address })
        } else {
            Err(VirtualAddressError::OutOfVirtualMemoryRange)
        }
    }
}

/// Splitting a canonical virtual address into its three table indexes and
/// its page offset and reassembling those four pieces, extending the sign
/// of bit 38 back over the top bits, reproduces the address exactly.
pub proof fn lemma_virtual_address_round_trip(va: u64)
    requires
        canonical(va),
    ensures
        va == ({
            let low = (table_index(va, 2) << 30) | (table_index(va, 1) << 21) | (table_index(
                va,
                0,
            ) << 12) | (va & 0xfff);
            if va >> 38 == 0 {
                low
            } else {
                low | 0xffff_ff80_0000_0000
            }
        }),
{
    assert(table_index(va, 2) == (va >> 30) & 0x1ff);
    assert(table_index(va, 1) == (va >> 21) & 0x1ff);
    assert(table_index(va, 0) == (va >> 12) & 0x1ff);
    assert(va == ({
        let low = (((va >> 30) & 0x1ff) << 30) | (((va >> 21) & 0x1ff) << 21) | (((va >> 12)
            & 0x1ff) << 12) | (va & 0xfff);
        if va >> 38 == 0 {
            low
        } else {
            low | 0xffff_ff80_0000_0000
        }
    })) by (bit_vector)
        requires
            va >> 38 == 0 || va >> 38 == 0x3ff_ffff,
    ;
}

/// Permission mode of a page-table entry under construction.
#[derive(Clone, Copy, Debug, PartialEq, Eq, Structural)]
pub enum PageTableEntryMode {
    PageTablePointer,
    ReadOnly,
    ReadWrite,
    ExecuteOnly,
    ReadExecute,
    ReadWriteExecute,
}

/// The read/write/execute bits (bits 1 to 3) a mode sets.
pub open spec fn mode_bits(mode: PageTableEntryMode) -> u64 {
    match mode {
        PageTableEntryMode::PageTablePointer => 0,
        PageTableEntryMode::ReadOnly => 0x2,
        PageTableEntryMode::ReadWrite => 0x6,
        PageTableEntryMode::ExecuteOnly => 0x8,
        PageTableEntryMode::ReadExecute => 0xa,
        PageTableEntryMode::ReadWriteExecute => 0xe,
    }
}

/// A mode that produces a leaf entry: any mode that sets one of the
/// read/write/execute bits, i.e. every mode but `PageTablePointer`.
pub open spec fn leaf_mode(mode: PageTableEntryMode) -> bool {
    mode_bits(mode) != 0
}

// Field accessors over the raw bits of a 64-bit descriptor.
pub open spec fn pte_valid(bits: u64) -> bool {
    bits & 0x1 != 0
}

pub open spec fn pte_readable(bits: u64) -> bool {
    bits & 0x2 != 0
}

pub open spec fn pte_writable(bits: u64) -> bool {
    bits & 0x4 != 0
}

pub open spec fn pte_executable(bits: u64) -> bool {
    bits & 0x8 != 0
}

/// A descriptor is a leaf exactly when one of R/W/X is set.
pub open spec fn pte_leaf(bits: u64) -> bool {
    bits & 0xe != 0
}

pub open spec fn pte_user(bits: u64) -> bool {
    bits & 0x10 != 0
}

pub open spec fn pte_global(bits: u64) -> bool {
    bits & 0x20 != 0
}

pub open spec fn pte_accessed(bits: u64) -> bool {
    bits & 0x40 != 0
}

pub open spec fn pte_dirty(bits: u64) -> bool {
    bits & 0x80 != 0
}

/// The 44-bit physical page number stored in bits 10 to 53.
pub open spec fn pte_ppn(bits: u64) -> u64 {
    (bits >> 10) & 0xfff_ffff_ffff
}

/// The value a valid descriptor is built from: valid bit, mode bits,
/// optional user/global flags, and the page number of `page_address`
/// (its bits above the 12-bit offset) in bits 10 to 53.
pub open spec fn entry_bits(page_address: u64, mode: PageTableEntryMode, user: bool, global: bool) -> u64 {
    0x1u64 | mode_bits(mode) | (if user {
        0x10u64
    } else {
        0
    }) | (if global {
        0x20u64
    } else {
        0
    }) | ((page_address >> 12) << 10)
}

/// One 64-bit hardware page-table descriptor.
#[derive(Clone, Copy, Debug, PartialEq, Eq, Structural)]
pub struct PageTableEntry {
    value: u64,
}

impl PageTableEntry {
    /// The raw descriptor bits.
    pub closed spec fn bits(&self) -> u64 {
        self.value
    }

    /// The raw 64-bit descriptor value, exactly as the hardware reads it.
    pub fn raw_value(&self) -> (value: u64)
        ensures
            value == self.bits(),
    {
        self.value
    }

    pub fn is_valid(&self) -> (r: bool)
        ensures
            r == pte_valid(self.bits()),
    {
        self.value & 0x1 != 0
    }

    pub fn is_readable(&self) -> (r: bool)
        ensures
            r == pte_readable(self.bits()),
    {
        self.value & 0x2 != 0
    }

    pub fn is_writable(&self) -> (r: bool)
        ensures
            r == pte_writable(self.bits()),
    {
        self.value & 0x4 != 0
    }

    pub fn is_executable(&self) -> (r: bool)
        ensures
            r == pte_executable(self.bits()),
    {
        self.value & 0x8 != 0
    }

    pub fn is_leaf(&self) -> (r: bool)
        ensures
            r == pte_leaf(self.bits()),
    {
        self.value & 0xe != 0
    }

    pub fn is_user_accessible(&self) -> (r: bool)
        ensures
            r == pte_user(self.bits()),
    {
        self.value & 0x10 != 0
    }

    pub fn is_global(&self) -> (r: bool)
        ensures
            r == pte_global(self.bits()),
    {
        self.value & 0x20 != 0
    }

    pub fn has_been_accessed(&self) -> (r: bool)
        ensures
            r == pte_accessed(self.bits()),
    {
        self.value & 0x40 != 0
    }

    pub fn is_dirty(&self) -> (r: bool)
        ensures
            r == pte_dirty(self.bits()),
    {
        self.value & 0x80 != 0
    }

    /// The full 44-bit physical page number.
    pub fn physical_page(&self) -> (ppn: u64)
        ensures
            ppn == pte_ppn(self.bits()),
    {
        (self.value >> 10) & 0xfff_ffff_ffff
    }

    /// The level-0 slice of the physical page number (bits 10 to 18).
    pub fn physical_page_number_0(&self) -> (ppn: u64)
        ensures
            ppn == (self.bits() >> 10) & 0x1ff,
    {
        (self.value >> 10) & 0x1ff
    }

    /// The level-1 slice of the physical page number (bits 19 to 27).
    pub fn physical_page_number_1(&self) -> (ppn: u64)
        ensures
            ppn == (self.bits() >> 19) & 0x1ff,
    {
        (self.value >> 19) & 0x1ff
    }

    /// The level-2 slice of the physical page number (bits 28 to 53).
    pub fn physical_page_number_2(&self) -> (ppn: u64)
        ensures
            ppn == (self.bits() >> 28) & 0x3ff_ffff,
    {
        (self.value >> 28) & 0x3ff_ffff
    }
}

/// Builder for page-table descriptors.
pub struct PageTableEntryBuilder {
    mode: PageTableEntryMode,
    user: bool,
    global: bool,
    page_number: u64,
    invalid: Option<u64>,
}

impl PageTableEntryBuilder {
    pub closed spec fn mode_spec(&self) -> PageTableEntryMode {
        self.mode
    }

    pub closed spec fn user_spec(&self) -> bool {
        self.user
    }

    pub closed spec fn global_spec(&self) -> bool {
        self.global
    }

    pub closed spec fn page_number_spec(&self) -> u64 {
        self.page_number
    }

    pub closed spec fn invalid_spec(&self) -> Option<u64> {
        self.invalid
    }

    /// The descriptor value the builder produces: the caller-supplied raw
    /// value with the valid bit forced clear when built through `invalid`,
    /// and the assembled valid descriptor otherwise.
    pub open spec fn built_bits(&self) -> u64 {
        match self.invalid_spec() {
            Some(v) => v,
            None => entry_bits(
                self.page_number_spec(),
                self.mode_spec(),
                self.user_spec(),
                self.global_spec(),
            ),
        }
    }

    /// Starts a valid descriptor for the frame at `page_number` with the
    /// given permission mode.
    pub fn new(page_number: u64, mode: PageTableEntryMode) -> (b: Self)
        ensures
            b.mode_spec() == mode,
            b.user_spec() == false,
            b.global_spec() == false,
            b.page_number_spec() == page_number,
            b.invalid_spec() is None,
    {
        Self { mode, user: false, global: false, page_number, invalid: None }
    }

    pub fn user_accessible(self) -> (b: Self)
        ensures
            b.mode_spec() == self.mode_spec(),
            b.user_spec() == true,
            b.global_spec() == self.global_spec(),
            b.page_number_spec() == self.page_number_spec(),
            b.invalid_spec() == self.invalid_spec(),
    {
        let mut b = self;
        b.user = true;
        b
    }

    pub fn global_mapping(self) -> (b: Self)
        ensures
            b.mode_spec() == self.mode_spec(),
            b.user_spec() == self.user_spec(),
            b.global_spec() == true,
            b.page_number_spec() == self.page_number_spec(),
            b.invalid_spec() == self.invalid_spec(),
    {
        let mut b = self;
        b.global = true;
        b
    }

    /// Starts an invalid descriptor: the raw value is kept as caller-supplied
    /// metadata except that the valid bit is forced clear.
    pub fn invalid(value: u64) -> (b: Self)
        ensures
            b.invalid_spec() == Some(value & 0xffff_ffff_ffff_fffe),
            !pte_valid(b.built_bits()),
    {
        let masked = value & (u64::MAX - 1);
        proof {
            assert(value & 0xffff_ffff_ffff_fffe & 0x1 == 0) by (bit_vector);
        }
        Self {
            mode: PageTableEntryMode::PageTablePointer,
            user: false,
            global: false,
            page_number: 0,
            invalid: Some(masked),
        }
    }

    pub fn build(self) -> (entry: PageTableEntry)
        ensures
            entry.bits() == self.built_bits(),
    {
        PageTableEntry::from(self)
    }
}

impl From<PageTableEntryBuilder> for PageTableEntry {
    fn from(b: PageTableEntryBuilder) -> (entry: Self) {
        match b.invalid {
            Some(value) => Self { value },
            None => {
                let mut value: u64 = 0x1;

                let permission_bits: u64 = match b.mode {
                    PageTableEntryMode::PageTablePointer => 0,
                    PageTableEntryMode::ReadOnly => 0x2,
                    PageTableEntryMode::ReadWrite => 0x6,
                    PageTableEntryMode::ExecuteOnly => 0x8,
                    PageTableEntryMode::ReadExecute => 0xa,
                    PageTableEntryMode::ReadWriteExecute => 0xe,
                };
                value = value | permission_bits;

                let user_bit: u64 = if b.user { 0x10 } else { 0 };
                value = value | user_bit;

                let global_bit: u64 = if b.global { 0x20 } else { 0 };
                value = value | global_bit;

                value = value | ((b.page_number >> 12) << 10);

                Self { value }
            },
        }
    }
}

impl vstd::std_specs::convert::FromSpecImpl<PageTableEntryBuilder> for PageTableEntry {
    closed spec fn obeys_from_spec() -> bool {
        true
    }

    closed spec fn from_spec(b: PageTableEntryBuilder) -> PageTableEntry {
        PageTableEntry { value: b.built_bits() }
    }
}


/// The validating conversion obeys the canonical-form rule exactly: a
/// canonical raw value is accepted and stored unchanged, and any other
/// value is rejected with `OutOfVirtualMemoryRange`.
pub proof fn lemma_virtual_address_try_from(v: u64)
    ensures
        <VirtualAddress as vstd::std_specs::convert::TryFromSpec<u64>>::obeys_try_from_spec(),
        match <VirtualAddress as vstd::std_specs::convert::TryFromSpec<u64>>::try_from_spec(v) {
            Ok(va) => canonical(v) && va@ == v,
            Err(e) => !canonical(v) && e == VirtualAddressError::OutOfVirtualMemoryRange,
        },
{
}

/// Bit facts about the all-zero descriptor value.
proof fn lemma_zero_bits()
    by (bit_vector)
    ensures
        0u64 & 0x1 == 0,
        0u64 & 0xe == 0,
        0u64 & 0xffff_ffff_ffff_fffe == 0,
{
}

/// A 9-bit table index always lies below 512.
pub broadcast proof fn lemma_table_index_bound(va: u64, level: u64)
    ensures
        #[trigger] table_index(va, level) < 512,
{
    let shift = (12 + 9 * level) as u64;
    assert((va >> shift) & 0x1ff < 512) by (bit_vector);
}

/// Identifies one leaf-level entry slot: the frame address of the table
/// that holds it, the index of the slot within that table, and the entry
/// read from the slot.
#[derive(Clone, Copy, Debug, PartialEq, Eq, Structural)]
pub struct EntrySlot {
    pub table_address: u64,
    pub index: usize,
    pub entry: PageTableEntry,
}

/// One page-table level: 512 descriptors occupying exactly one frame.
/// Each table owns the lower-level tables its valid pointer entries refer
/// to, so the root table owns the whole three-level radix tree.
pub struct PageTable {
    frame_address: u64,
    entries: Vec<PageTableEntry>,
    children: Vec<Option<Box<PageTable>>>,
}

impl PageTable {
    /// The frame address this table occupies.
    pub closed spec fn frame_addr(self) -> u64 {
        self.frame_address
    }

    /// The 512 descriptors of this table.
    pub closed spec fn entries_spec(self) -> Seq<PageTableEntry> {
        self.entries@
    }

    /// The owned lower-level table behind slot `i`, if any.
    pub closed spec fn child_spec(self, i: int) -> Option<PageTable> {
        if 0 <= i < self.children@.len() {
            match self.children@[i] {
                Some(child) => Some(*child),
                None => None,
            }
        } else {
            None
        }
    }

    /// The frame address this table occupies, for the layer that writes
    /// the table into physical memory.
    pub fn frame_address(&self) -> (address: u64)
        ensures
            address == self.frame_addr(),
    {
        self.frame_address
    }

    /// The raw values of this table's descriptors in slot order: the exact
    /// 64-bit words the hardware expects in the table's frame.
    pub fn entry_values(&self) -> (values: Vec<u64>)
        ensures
            values@.len() == self.entries_spec().len(),
            forall|i: int|
                0 <= i < values@.len() ==> #[trigger] values@[i]
                    == self.entries_spec()[i].bits(),
    {
        let mut values: Vec<u64> = Vec::new();
        let mut i: usize = 0;
        while i < self.entries.len()
            invariant
                i <= self.entries@.len(),
                values@.len() == i,
                forall|j: int|
                    0 <= j < i ==> #[trigger] values@[j] == self.entries@[j].bits(),
            decreases self.entries@.len() - i,
        {
            values.push(self.entries[i].raw_value());
            i = i + 1;
        }
        values
    }

    /// Borrows the lower-level table behind slot `index`, if one exists.
    pub fn child(&self, index: usize) -> (child: Option<&PageTable>)
        ensures
            match child {
                Some(table) => self.child_spec(index as int) == Some(*table),
                None => self.child_spec(index as int) is None,
            },
    {
        if index < self.children.len() {
            match &self.children[index] {
                Some(boxed) => Some(&**boxed),
                None => None,
            }
        } else {
            None
        }
    }

    /// Well-formedness of a table standing at `level`: 512 entries, one
    /// whole frame, and at levels above 0 every valid entry is a non-leaf
    /// pointer whose physical page number names the frame of a well-formed
    /// owned child table, while invalid entries have no child.
    pub closed spec fn wf_at(self, level: nat) -> bool
        decreases level,
    {
        &&& self.entries@.len() == 512
        &&& self.children@.len() == 512
        &&& frame_addr_wf(self.frame_address)
        &&& (level == 0 ==> forall|i: int|
            0 <= i < 512 ==> (#[trigger] self.children@[i]) is None)
        &&& (level > 0 ==> forall|i: int|
            0 <= i < 512 ==> match #[trigger] self.children@[i] {
                None => !pte_valid(self.entries@[i].bits()),
                Some(child) => {
                    &&& pte_valid(self.entries@[i].bits())
                    &&& !pte_leaf(self.entries@[i].bits())
                    &&& child.frame_addr() == pte_ppn(self.entries@[i].bits()) << 12
                    &&& child.wf_at((level - 1) as nat)
                },
            })
    }

    /// A freshly created table: every descriptor is the all-zero invalid
    /// entry and no child table exists.
    pub closed spec fn is_empty_table(self) -> bool {
        &&& self.entries@.len() == 512
        &&& self.children@.len() == 512
        &&& frame_addr_wf(self.frame_address)
        &&& (forall|i: int| 0 <= i < 512 ==> (#[trigger] self.entries@[i]).bits() == 0)
        &&& (forall|i: int| 0 <= i < 512 ==> (#[trigger] self.children@[i]) is None)
    }

    /// The slot a lookup of `va` reaches when this table stands at `level`:
    /// descend through valid entries; at level 0 the slot itself is
    /// returned whether or not its entry is valid, while an invalid entry
    /// above level 0 stops the lookup with no slot.
    pub closed spec fn find_slot(self, va: u64, level: nat) -> Option<EntrySlot>
        decreases level,
    {
        let i = table_index(va, level as u64) as int;
        if level == 0 {
            Some(
                EntrySlot {
                    table_address: self.frame_address,
                    index: table_index(va, 0) as usize,
                    entry: self.entries@[i],
                },
            )
        } else if !pte_valid(self.entries@[i].bits()) {
            None
        } else {
            match self.children@[i] {
                Some(child) => child.find_slot(va, (level - 1) as nat),
                None => None,
            }
        }
    }

    /// How many intermediate tables a demand-allocating lookup of `va`
    /// still has to create below this table.
    pub closed spec fn missing_tables(self, va: u64, level: nat) -> nat
        decreases level,
    {
        let i = table_index(va, level as u64) as int;
        if level == 0 {
            0
        } else if !pte_valid(self.entries@[i].bits()) {
            level
        } else {
            match self.children@[i] {
                Some(child) => child.missing_tables(va, (level - 1) as nat),
                None => level,
            }
        }
    }

    /// The physical address `va` translates to: the leaf slot must exist
    /// and hold a valid leaf entry, and the result composes the entry's
    /// physical page number with the low 12 bits of `va`.
    pub open spec fn translate_at(self, va: u64, level: nat) -> Option<u64> {
        match self.find_slot(va, level) {
            None => None,
            Some(slot) => if pte_valid(slot.entry.bits()) && pte_leaf(slot.entry.bits()) {
                Some((pte_ppn(slot.entry.bits()) << 12) | (va & 0xfff))
            } else {
                None
            },
        }
    }

    /// The descriptor installed in the leaf-level slot of `va`, if the
    /// slot is reachable and holds a valid entry: the raw bits the hardware
    /// would use for `va`, whatever their kind.
    pub open spec fn mapped_entry_at(self, va: u64, level: nat) -> Option<u64> {
        match self.find_slot(va, level) {
            None => None,
            Some(slot) => if pte_valid(slot.entry.bits()) {
                Some(slot.entry.bits())
            } else {
                None
            },
        }
    }

    /// A demand-allocating lookup never needs more tables than there are
    /// levels below the starting one.
    pub proof fn lemma_missing_tables_bound(self, va: u64, level: nat)
        ensures
            self.missing_tables(va, level) <= level,
        decreases level,
    {
        if level > 0 {
            let i = table_index(va, level as u64) as int;
            if pte_valid(self.entries@[i].bits()) {
                match self.children@[i] {
                    Some(child) => child.lemma_missing_tables_bound(va, (level - 1) as nat),
                    None => (),
                }
            }
        }
    }

    /// Builds the all-invalid table occupying the frame at `frame_address`.
    fn empty_table(frame_address: u64) -> (table: PageTable)
        requires
            frame_addr_wf(frame_address),
        ensures
            table.is_empty_table(),
            table.frame_addr() == frame_address,
    {
        let mut entries: Vec<PageTableEntry> = Vec::new();
        let mut children: Vec<Option<Box<PageTable>>> = Vec::new();
        let mut i: usize = 0;
        while i < 512
            invariant
                i <= 512,
                entries@.len() == i,
                children@.len() == i,
                forall|j: int| 0 <= j < i ==> (#[trigger] entries@[j]).bits() == 0,
                forall|j: int| 0 <= j < i ==> (#[trigger] children@[j]) is None,
            decreases 512 - i,
        {
            proof {
                lemma_zero_bits();
            }
            entries.push(PageTableEntryBuilder::invalid(0).build());
            children.push(None);
            i = i + 1;
        }
        PageTable { frame_address, entries, children }
    }

    /// Allocates one frame and builds a fresh, entirely invalid table in
    /// it.  Fails with `NoPagesAvailable` exactly when the allocator is
    /// out of frames.
    pub fn new(allocator: &mut PageAllocator) -> (result: Result<PageTable, PageAllocationError>)
        requires
            old(allocator).wf(),
        ensures
            final(allocator).wf(),
            old(allocator)@.len() == 0 ==> {
                &&& result == Err::<PageTable, PageAllocationError>(
                    PageAllocationError::NoPagesAvailable,
                )
                &&& final(allocator)@ == old(allocator)@
            },
            old(allocator)@.len() > 0 ==> {
                &&& result matches Ok(table)
                &&& result matches Ok(table) ==> table.is_empty_table() && table.frame_addr()
                    == old(allocator)@.last()
                &&& final(allocator)@ == old(allocator)@.drop_last()
            },
    {
        let page = match allocator.allocate() {
            Ok(page) => page,
            Err(e) => {
                return Err(e);
            },
        };
        Ok(Self::empty_table(page.address))
    }

    /// Pure lookup: returns the leaf-level slot of `virt`, or `None` when
    /// an intermediate entry on the path is invalid.  Never allocates.
    pub fn walk(&self, virt: VirtualAddress) -> (slot: Option<EntrySlot>)
        requires
            self.wf_at(2),
        ensures
            slot == self.find_slot(virt@, 2),
    {
        self.do_walk(virt, 2)
    }

    fn do_walk(&self, virt: VirtualAddress, level: u64) -> (slot: Option<EntrySlot>)
        requires
            level <= 2,
            self.wf_at(level as nat),
        ensures
            slot == self.find_slot(virt@, level as nat),
        decreases level,
    {
        let index = virt.page_table_index(level) as usize;
        let pte = self.entries[index];

        if level == 0 {
            return Some(
                EntrySlot { table_address: self.frame_address, index, entry: pte },
            );
        }

        if !pte.is_valid() {
            return None;
        }

        match &self.children[index] {
            Some(child) => child.do_walk(virt, level - 1),
            None => {
                // well-formedness: a valid entry above level 0 has a child
                proof {
                    assert(false);
                }
                None
            },
        }
    }
}


/// Taking a prefix of a prefix is taking the shorter prefix.
proof fn lemma_take_of_take(s: Seq<u64>, longer: int, shorter: int)
    requires
        0 <= shorter <= longer <= s.len(),
    ensures
        s.take(longer).take(shorter) == s.take(shorter),
{
    assert(s.take(longer).take(shorter) =~= s.take(shorter));
}

/// A sequence is the prefix of itself of full length.
proof fn lemma_take_full(s: Seq<u64>)
    ensures
        s.take(s.len() as int) == s,
{
    assert(s.take(s.len() as int) =~= s);
}

/// Field values of a descriptor built for the frame at `addr` with the
/// given mode and neither the user nor the global flag: it is valid, it is
/// a leaf exactly for the leaf modes, and its physical page number names
/// `addr` exactly.
pub proof fn lemma_entry_bits_fields(addr: u64, mode: PageTableEntryMode)
    requires
        frame_addr_wf(addr),
    ensures
        ({
            let bits = entry_bits(addr, mode, false, false);
            &&& pte_valid(bits)
            &&& pte_leaf(bits) == leaf_mode(mode)
            &&& pte_ppn(bits) == addr >> 12
            &&& pte_ppn(bits) << 12 == addr
        }),
{
    let perm = mode_bits(mode);
    assert(perm == 0 || perm == 0x2 || perm == 0x6 || perm == 0x8 || perm == 0xa || perm == 0xe);
    let bits = entry_bits(addr, mode, false, false);
    assert(bits == (((0x1u64 | perm) | 0) | 0) | ((addr >> 12) << 10));
    assert({
        let b = (((0x1u64 | perm) | 0) | 0) | ((addr >> 12) << 10);
        &&& b & 0x1 != 0
        &&& (b & 0xe == 0 <==> perm == 0)
        &&& (b >> 10) & 0xfff_ffff_ffff == addr >> 12
        &&& ((b >> 10) & 0xfff_ffff_ffff) << 12 == addr
    }) by (bit_vector)
        requires
            addr % 4096 == 0,
            addr < 0x100_0000_0000_0000,
            perm == 0 || perm == 0x2 || perm == 0x6 || perm == 0x8 || perm == 0xa || perm == 0xe,
    ;
}

/// The table indexes of two addresses agree at every level up to `level`.
pub open spec fn same_path(va1: u64, va2: u64, level: nat) -> bool
    decreases level,
{
    &&& table_index(va1, level as u64) == table_index(va2, level as u64)
    &&& (level > 0 ==> same_path(va1, va2, (level - 1) as nat))
}

impl PageTable {
    /// What holds of an entirely invalid table at any level: it is well
    /// formed, a lookup above level 0 finds nothing, the level-0 slot holds
    /// an invalid entry, nothing translates, and a demand-allocating lookup
    /// needs `level` new tables.
    pub proof fn lemma_empty_table(self, va: u64, level: nat)
        requires
            self.is_empty_table(),
        ensures
            self.wf_at(level),
            level > 0 ==> self.find_slot(va, level) is None,
            level == 0 ==> (self.find_slot(va, level) matches Some(slot) && !pte_valid(
                slot.entry.bits(),
            )),
            self.translate_at(va, level) is None,
            self.mapped_entry_at(va, level) is None,
            self.missing_tables(va, level) == level,
    {
        broadcast use lemma_table_index_bound;

        lemma_zero_bits();
        let i = table_index(va, level as u64) as int;
        assert(self.entries@[i].bits() == 0);
    }
}

impl PageTable {
    fn do_walk_and_map(
        &mut self,
        virt: VirtualAddress,
        level: u64,
        allocator: &mut PageAllocator,
    ) -> (result: Result<EntrySlot, PageAllocationError>)
        requires
            level <= 2,
            old(self).wf_at(level as nat),
            old(allocator).wf(),
        ensures
            final(self).wf_at(level as nat),
            final(allocator).wf(),
            final(self).frame_addr() == old(self).frame_addr(),
            final(allocator)@ == old(allocator)@.take(final(allocator)@.len() as int),
            result is Ok <==> old(allocator)@.len() >= old(self).missing_tables(
                virt@,
                level as nat,
            ),
            result is Ok ==> final(allocator)@.len() == old(allocator)@.len() - old(self).missing_tables(virt@, level as nat),
            result is Err ==> result == Err::<EntrySlot, PageAllocationError>(
                PageAllocationError::NoPagesAvailable,
            ) && final(allocator)@.len() == 0,
            result matches Ok(slot) ==> final(self).find_slot(virt@, level as nat) == Some(slot),
            result is Ok ==> final(self).missing_tables(virt@, level as nat) == 0,
            result is Err ==> final(self).missing_tables(virt@, level as nat) + old(
                allocator,
            )@.len() == old(self).missing_tables(virt@, level as nat),
            forall|va: u64|
                (#[trigger] old(self).find_slot(va, level as nat)) is Some ==> final(self).find_slot(va, level as nat) == old(self).find_slot(va, level as nat),
            forall|va: u64|
                #![trigger final(self).translate_at(va, level as nat)]
                final(self).translate_at(va, level as nat) == old(self).translate_at(
                    va,
                    level as nat,
                ),
            forall|va: u64|
                #![trigger final(self).mapped_entry_at(va, level as nat)]
                final(self).mapped_entry_at(va, level as nat) == old(self).mapped_entry_at(
                    va,
                    level as nat,
                ),
        decreases level,
    {
        broadcast use lemma_table_index_bound;

        let ghost l = level as nat;
        let index = virt.page_table_index(level) as usize;
        let pte = self.entries[index];

        if level == 0 {
            proof {
                lemma_take_full(allocator@);
            }
            return Ok(EntrySlot { table_address: self.frame_address, index, entry: pte });
        }

        let ghost cl = (level - 1) as nat;
        let ghost oldt = *self;
        let ghost old_alloc = allocator@;

        if !pte.is_valid() {
            // The path ends here: allocate a fresh table for the next level,
            // install a pointer entry for it, and continue below it.  The
            // entry and the partially built subtree stay in place even when
            // a deeper allocation fails.
            let page = match allocator.allocate() {
                Ok(page) => page,
                Err(e) => {
                    proof {
                        lemma_take_full(allocator@);
                    }
                    return Err(e);
                },
            };
            let mut child = PageTable::empty_table(page.address);
            proof {
                child.lemma_empty_table(virt@, cl);
            }
            let ghost fresh_child = child;
            let recursed = child.do_walk_and_map(virt, level - 1, allocator);
            let ghost new_child = child;
            let entry = PageTableEntryBuilder::new(
                page.address,
                PageTableEntryMode::PageTablePointer,
            ).build();
            self.entries[index] = entry;
            self.children[index] = Some(Box::new(child));

            proof {
                lemma_entry_bits_fields(page.address, PageTableEntryMode::PageTablePointer);
                let newt = *self;
                assert(newt.entries@ =~= oldt.entries@.update(index as int, entry));
                assert(newt.children@ =~= oldt.children@.update(
                    index as int,
                    Some(Box::new(new_child)),
                ));

                // Well-formedness of the updated table.
                assert forall|i: int| 0 <= i < 512 implies match #[trigger] newt.children@[i] {
                    None => !pte_valid(newt.entries@[i].bits()),
                    Some(c) => {
                        &&& pte_valid(newt.entries@[i].bits())
                        &&& !pte_leaf(newt.entries@[i].bits())
                        &&& c.frame_addr() == pte_ppn(newt.entries@[i].bits()) << 12
                        &&& c.wf_at(cl)
                    },
                } by {
                    if i != index as int {
                        assert(newt.children@[i] == oldt.children@[i]);
                        assert(newt.entries@[i] == oldt.entries@[i]);
                    }
                }
                assert(newt.wf_at(l));

                // Lookups of other addresses are unchanged; `virt` and the
                // addresses sharing its path now descend into the new child,
                // which maps nothing it was not just asked to map.
                assert forall|va: u64|
                    (#[trigger] oldt.find_slot(va, l)) is Some implies newt.find_slot(va, l)
                    == oldt.find_slot(va, l) by {
                    let i = table_index(va, level) as int;
                    if i == index as int {
                        assert(oldt.find_slot(va, l) is None);
                    }
                }
                assert forall|va: u64| #[trigger]
                    newt.translate_at(va, l) == oldt.translate_at(va, l) by {
                    let i = table_index(va, level) as int;
                    if i == index as int {
                        assert(oldt.find_slot(va, l) is None);
                        assert(newt.find_slot(va, l) == new_child.find_slot(va, cl));
                        assert(newt.translate_at(va, l) == new_child.translate_at(va, cl));
                        fresh_child.lemma_empty_table(va, cl);
                        assert(new_child.translate_at(va, cl) is None);
                    }
                }
                assert forall|va: u64| #[trigger]
                    newt.mapped_entry_at(va, l) == oldt.mapped_entry_at(va, l) by {
                    let i = table_index(va, level) as int;
                    if i == index as int {
                        assert(oldt.find_slot(va, l) is None);
                        assert(newt.find_slot(va, l) == new_child.find_slot(va, cl));
                        fresh_child.lemma_empty_table(va, cl);
                        assert(new_child.mapped_entry_at(va, cl) is None);
                    }
                }

                // The allocator lost the popped frame and what the deeper
                // call consumed, all from the head.
                assert(oldt.missing_tables(virt@, l) == l);
                assert(fresh_child.missing_tables(virt@, cl) == cl);
                assert(newt.missing_tables(virt@, l) == new_child.missing_tables(virt@, cl));
                assert(old_alloc.drop_last() =~= old_alloc.take(old_alloc.len() - 1));
                lemma_take_of_take(old_alloc, old_alloc.len() - 1, allocator@.len() as int);

                if recursed is Ok {
                    let slot = recursed->Ok_0;
                    assert(new_child.find_slot(virt@, cl) == Some(slot));
                    assert(newt.find_slot(virt@, l) == Some(slot));
                }
            }

            recursed
        } else {
            let taken = self.children[index].take();
            match taken {
                Some(mut boxed) => {
                    let ghost old_child = *boxed;
                    let recursed = (&mut *boxed).do_walk_and_map(virt, level - 1, allocator);
                    let ghost new_child = *boxed;
                    self.children[index] = Some(boxed);
                    proof {
                        let newt = *self;
                        assert(newt.entries@ =~= oldt.entries@);
                        assert(newt.children@ =~= oldt.children@.update(
                            index as int,
                            Some(Box::new(new_child)),
                        ));
                        assert(oldt.children@[index as int] == Some(Box::new(old_child)));
                        assert(old_child.wf_at(cl));

                        assert forall|i: int| 0 <= i < 512 implies match #[trigger] newt.children@[i] {
                            None => !pte_valid(newt.entries@[i].bits()),
                            Some(c) => {
                                &&& pte_valid(newt.entries@[i].bits())
                                &&& !pte_leaf(newt.entries@[i].bits())
                                &&& c.frame_addr() == pte_ppn(newt.entries@[i].bits()) << 12
                                &&& c.wf_at(cl)
                            },
                        } by {
                            if i != index as int {
                                assert(newt.children@[i] == oldt.children@[i]);
                            }
                        }
                        assert(newt.wf_at(l));

                        assert(oldt.missing_tables(virt@, l) == old_child.missing_tables(
                            virt@,
                            cl,
                        ));

                        assert forall|va: u64|
                            (#[trigger] oldt.find_slot(va, l)) is Some implies newt.find_slot(
                            va,
                            l,
                        ) == oldt.find_slot(va, l) by {
                            let i = table_index(va, level) as int;
                            if i == index as int {
                                assert(oldt.find_slot(va, l) == old_child.find_slot(va, cl));
                                assert(newt.find_slot(va, l) == new_child.find_slot(va, cl));
                            }
                        }
                        assert forall|va: u64| #[trigger]
                            newt.translate_at(va, l) == oldt.translate_at(va, l) by {
                            let i = table_index(va, level) as int;
                            if i == index as int {
                                assert(oldt.find_slot(va, l) == old_child.find_slot(va, cl));
                                assert(newt.find_slot(va, l) == new_child.find_slot(va, cl));
                                assert(oldt.translate_at(va, l) == old_child.translate_at(
                                    va,
                                    cl,
                                ));
                                assert(newt.translate_at(va, l) == new_child.translate_at(
                                    va,
                                    cl,
                                ));
                            }
                        }
                        assert forall|va: u64| #[trigger]
                            newt.mapped_entry_at(va, l) == oldt.mapped_entry_at(va, l) by {
                            let i = table_index(va, level) as int;
                            if i == index as int {
                                assert(oldt.find_slot(va, l) == old_child.find_slot(va, cl));
                                assert(newt.find_slot(va, l) == new_child.find_slot(va, cl));
                                assert(oldt.mapped_entry_at(va, l) == old_child.mapped_entry_at(
                                    va,
                                    cl,
                                ));
                                assert(newt.mapped_entry_at(va, l) == new_child.mapped_entry_at(
                                    va,
                                    cl,
                                ));
                            }
                        }
                        assert(newt.missing_tables(virt@, l) == new_child.missing_tables(
                            virt@,
                            cl,
                        ));

                        if recursed is Ok {
                            let slot = recursed->Ok_0;
                            assert(new_child.find_slot(virt@, cl) == Some(slot));
                            assert(newt.find_slot(virt@, l) == Some(slot));
                        }
                    }
                    recursed
                },
                None => {
                    // well-formedness: a valid entry above level 0 has a child
                    proof {
                        assert(false);
                    }
                    Err(PageAllocationError::NoPagesAvailable)
                },
            }
        }
    }
}


/// Every address shares a path with itself.
pub proof fn lemma_same_path_refl(va: u64, level: nat)
    ensures
        same_path(va, va, level),
    decreases level,
{
    if level > 0 {
        lemma_same_path_refl(va, (level - 1) as nat);
    }
}

/// Sharing the full three-level path means agreeing on all three table
/// indexes.
pub proof fn lemma_same_path_full(va1: u64, va2: u64)
    ensures
        same_path(va1, va2, 2) <==> {
            &&& table_index(va1, 2) == table_index(va2, 2)
            &&& table_index(va1, 1) == table_index(va2, 1)
            &&& table_index(va1, 0) == table_index(va2, 0)
        },
{
    assert(same_path(va1, va2, 0) == (table_index(va1, 0) == table_index(va2, 0)));
    assert(same_path(va1, va2, 1) == (table_index(va1, 1) == table_index(va2, 1) && same_path(
        va1,
        va2,
        0,
    )));
}

/// Composing a page-aligned address with a page offset by bitwise or is
/// plain addition.
pub proof fn lemma_aligned_or_offset(addr: u64, off: u64)
    requires
        addr % PAGE_SIZE == 0,
        off < PAGE_SIZE,
    ensures
        addr | off == addr + off,
{
    assert(addr | off == addr + off) by (bit_vector)
        requires
            addr % 4096 == 0,
            off < 4096,
    ;
}

/// A page-aligned address below the 39-bit range is canonical.
pub proof fn lemma_low_address_canonical(addr: u64)
    requires
        addr < 0x40_0000_0000,
    ensures
        canonical(addr),
{
    assert(addr >> 38 == 0) by (bit_vector)
        requires
            addr < 0x40_0000_0000,
    ;
}

impl PageTable {
    /// The demand-allocating lookup: like `walk`, but when an intermediate
    /// entry on the path of `virt` is invalid, a fresh table is allocated,
    /// zero-initialized and installed before descending.  Fails with
    /// `NoPagesAvailable` exactly when the allocator holds fewer frames
    /// than the path still needs; intermediate tables created before the
    /// failure stay in place, so a failed call still shortens the path that
    /// remains to be built, and after a success the path is complete: a
    /// repeated call finds the same slot and consumes nothing.  Existing
    /// slots, installed descriptors and translations are never changed.
    pub fn walk_and_map(
        &mut self,
        virt: VirtualAddress,
        allocator: &mut PageAllocator,
    ) -> (result: Result<EntrySlot, PageAllocationError>)
        requires
            old(self).wf_at(2),
            old(allocator).wf(),
        ensures
            final(self).wf_at(2),
            final(allocator).wf(),
            final(self).frame_addr() == old(self).frame_addr(),
            final(allocator)@ == old(allocator)@.take(final(allocator)@.len() as int),
            result is Ok <==> old(allocator)@.len() >= old(self).missing_tables(virt@, 2),
            result is Ok ==> final(allocator)@.len() == old(allocator)@.len() - old(
                self,
            ).missing_tables(virt@, 2),
            result is Err ==> result == Err::<EntrySlot, PageAllocationError>(
                PageAllocationError::NoPagesAvailable,
            ) && final(allocator)@.len() == 0,
            result matches Ok(slot) ==> final(self).find_slot(virt@, 2) == Some(slot),
            result is Ok ==> final(self).missing_tables(virt@, 2) == 0,
            result is Err ==> final(self).missing_tables(virt@, 2) + old(allocator)@.len() == old(
                self,
            ).missing_tables(virt@, 2),
            forall|va: u64|
                (#[trigger] old(self).find_slot(va, 2)) is Some ==> final(self).find_slot(va, 2)
                    == old(self).find_slot(va, 2),
            forall|va: u64|
                #![trigger final(self).translate_at(va, 2)]
                final(self).translate_at(va, 2) == old(self).translate_at(va, 2),
            forall|va: u64|
                #![trigger final(self).mapped_entry_at(va, 2)]
                final(self).mapped_entry_at(va, 2) == old(self).mapped_entry_at(va, 2),
    {
        self.do_walk_and_map(virt, 2, allocator)
    }

    /// Writes `pte` into the leaf-level slot of `virt`, which must exist.
    /// Only the slot shared by the addresses on the same full path changes.
    fn do_set_entry(&mut self, virt: VirtualAddress, level: u64, pte: PageTableEntry)
        requires
            level <= 2,
            old(self).wf_at(level as nat),
            old(self).find_slot(virt@, level as nat) is Some,
        ensures
            final(self).wf_at(level as nat),
            final(self).frame_addr() == old(self).frame_addr(),
            forall|va: u64|
                #![trigger final(self).find_slot(va, level as nat)]
                final(self).find_slot(va, level as nat) == if same_path(
                    va,
                    virt@,
                    level as nat,
                ) {
                    Some(
                        EntrySlot {
                            table_address: old(self).find_slot(
                                virt@,
                                level as nat,
                            )->Some_0.table_address,
                            index: old(self).find_slot(virt@, level as nat)->Some_0.index,
                            entry: pte,
                        },
                    )
                } else {
                    old(self).find_slot(va, level as nat)
                },
        decreases level,
    {
        broadcast use lemma_table_index_bound;

        let ghost l = level as nat;
        let ghost oldt = *self;
        let index = virt.page_table_index(level) as usize;

        if level == 0 {
            self.entries[index] = pte;
            proof {
                let newt = *self;
                assert(newt.wf_at(l));
                assert forall|va: u64| #[trigger]
                    newt.find_slot(va, l) == if same_path(va, virt@, l) {
                        Some(
                            EntrySlot {
                                table_address: oldt.find_slot(virt@, l)->Some_0.table_address,
                                index: oldt.find_slot(virt@, l)->Some_0.index,
                                entry: pte,
                            },
                        )
                    } else {
                        oldt.find_slot(va, l)
                    } by {
                    let i = table_index(va, 0) as int;
                    assert(same_path(va, virt@, l) == (table_index(va, 0) == table_index(
                        virt@,
                        0,
                    )));
                }
            }
            return ;
        }

        let ghost cl = (level - 1) as nat;
        let taken = self.children[index].take();
        match taken {
            Some(mut boxed) => {
                let ghost old_child = *boxed;
                proof {
                    assert(oldt.find_slot(virt@, l) == old_child.find_slot(virt@, cl));
                }
                (&mut *boxed).do_set_entry(virt, level - 1, pte);
                let ghost new_child = *boxed;
                self.children[index] = Some(boxed);
                proof {
                    let newt = *self;
                    assert(newt.entries@ =~= oldt.entries@);
                    assert(newt.children@ =~= oldt.children@.update(
                        index as int,
                        Some(Box::new(new_child)),
                    ));
                    assert(oldt.children@[index as int] == Some(Box::new(old_child)));
                    assert(old_child.wf_at(cl));

                    assert forall|i: int| 0 <= i < 512 implies match #[trigger] newt.children@[i] {
                        None => !pte_valid(newt.entries@[i].bits()),
                        Some(c) => {
                            &&& pte_valid(newt.entries@[i].bits())
                            &&& !pte_leaf(newt.entries@[i].bits())
                            &&& c.frame_addr() == pte_ppn(newt.entries@[i].bits()) << 12
                            &&& c.wf_at(cl)
                        },
                    } by {
                        if i != index as int {
                            assert(newt.children@[i] == oldt.children@[i]);
                        }
                    }
                    assert(newt.wf_at(l));

                    assert forall|va: u64| #[trigger]
                        newt.find_slot(va, l) == if same_path(va, virt@, l) {
                            Some(
                                EntrySlot {
                                    table_address: oldt.find_slot(virt@, l)->Some_0.table_address,
                                    index: oldt.find_slot(virt@, l)->Some_0.index,
                                    entry: pte,
                                },
                            )
                        } else {
                            oldt.find_slot(va, l)
                        } by {
                        let i = table_index(va, level) as int;
                        assert(same_path(va, virt@, l) == (table_index(va, level) == table_index(
                            virt@,
                            level,
                        ) && same_path(va, virt@, cl)));
                        if i == index as int {
                            assert(oldt.find_slot(va, l) == old_child.find_slot(va, cl));
                            assert(newt.find_slot(va, l) == new_child.find_slot(va, cl));
                        }
                    }
                }
            },
            None => {
                // well-formedness: a valid entry above level 0 has a child
                proof {
                    assert(false);
                }
            },
        }
    }
}

/// The root of a three-level address space: owns its page-frame allocator
/// and its root page table.
pub struct VirtualMemory {
    pub page_allocator: PageAllocator,
    pub root_table: PageTable,
}

impl VirtualMemory {
    /// The allocator holds only manageable frames and the root table is a
    /// well-formed three-level tree.
    pub open spec fn wf(self) -> bool {
        &&& self.page_allocator.wf()
        &&& self.root_table.wf_at(2)
    }

    /// The physical address a raw virtual value translates to.
    pub open spec fn translate_spec(self, va: u64) -> Option<u64> {
        self.root_table.translate_at(va, 2)
    }

    /// How many intermediate tables a mapping of `va` would have to create.
    pub open spec fn tables_to_create(self, va: u64) -> nat {
        self.root_table.missing_tables(va, 2)
    }

    /// The raw descriptor installed for `va`, if its leaf slot is reachable
    /// and holds a valid entry.
    pub open spec fn mapped_entry(self, va: u64) -> Option<u64> {
        self.root_table.mapped_entry_at(va, 2)
    }

    /// Takes ownership of the allocator and allocates the root table from
    /// it.  Fails exactly when the allocator is out of frames; afterwards
    /// no address translates to anything.
    pub fn new(page_allocator: PageAllocator) -> (result: Result<VirtualMemory, PageAllocationError>)
        requires
            page_allocator.wf(),
        ensures
            page_allocator@.len() == 0 ==> result == Err::<VirtualMemory, PageAllocationError>(
                PageAllocationError::NoPagesAvailable,
            ),
            page_allocator@.len() > 0 ==> {
                &&& result matches Ok(vm)
                &&& result matches Ok(vm) ==> {
                    &&& vm.wf()
                    &&& vm.page_allocator@ == page_allocator@.drop_last()
                    &&& vm.root_table.frame_addr() == page_allocator@.last()
                    &&& forall|va: u64| (#[trigger] vm.translate_spec(va)) is None
                    &&& forall|va: u64| (#[trigger] vm.root_table.find_slot(va, 2)) is None
                }
            },
    {
        let mut page_allocator = page_allocator;
        let root_table = match PageTable::new(&mut page_allocator) {
            Ok(table) => table,
            Err(e) => {
                return Err(e);
            },
        };
        proof {
            assert forall|va: u64| (#[trigger] root_table.find_slot(va, 2)) is None by {
                root_table.lemma_empty_table(va, 2);
            }
            assert forall|va: u64| (#[trigger] root_table.translate_at(va, 2)) is None by {
                root_table.lemma_empty_table(va, 2);
            }
            root_table.lemma_empty_table(0, 2);
        }
        Ok(VirtualMemory { page_allocator, root_table })
    }

    /// Installs a leaf descriptor for `virt` naming the frame `phys`,
    /// building any missing intermediate tables first.
    fn map_to(
        &mut self,
        virt: VirtualAddress,
        phys: PageAddr,
        mode: PageTableEntryMode,
    ) -> (result: Result<(), PageAllocationError>)
        requires
            old(self).wf(),
            frame_addr_wf(phys.address),
        ensures
            final(self).wf(),
            final(self).page_allocator@ == old(self).page_allocator@.take(
                final(self).page_allocator@.len() as int,
            ),
            final(self).page_allocator@.len() <= old(self).page_allocator@.len(),
            result is Ok <==> old(self).page_allocator@.len() >= old(self).tables_to_create(
                virt@,
            ),
            result is Ok ==> final(self).page_allocator@.len() == old(self).page_allocator@.len()
                - old(self).tables_to_create(virt@),
            result is Err ==> {
                &&& result == Err::<(), PageAllocationError>(PageAllocationError::NoPagesAvailable)
                &&& final(self).page_allocator@.len() == 0
                &&& forall|va: u64|
                    #![trigger final(self).translate_spec(va)]
                    final(self).translate_spec(va) == old(self).translate_spec(va)
                &&& forall|va: u64|
                    #![trigger final(self).mapped_entry(va)]
                    final(self).mapped_entry(va) == old(self).mapped_entry(va)
            },
            result is Ok ==> forall|va: u64|
                #![trigger final(self).translate_spec(va)]
                final(self).translate_spec(va) == (if same_path(va, virt@, 2) {
                    if leaf_mode(mode) {
                        Some((phys.address | (va & 0xfff)) as u64)
                    } else {
                        None::<u64>
                    }
                } else {
                    old(self).translate_spec(va)
                }),
            result is Ok ==> forall|va: u64|
                #![trigger final(self).mapped_entry(va)]
                final(self).mapped_entry(va) == (if same_path(va, virt@, 2) {
                    Some(entry_bits(phys.address, mode, false, false))
                } else {
                    old(self).mapped_entry(va)
                }),
    {
        let walk_result = self.root_table.walk_and_map(virt, &mut self.page_allocator);
        match walk_result {
            Err(e) => Err(e),
            Ok(_) => {
                let ghost mid = *self;
                let entry = PageTableEntryBuilder::new(phys.address, mode).build();
                self.root_table.do_set_entry(virt, 2, entry);
                proof {
                    lemma_entry_bits_fields(phys.address, mode);
                    let newt = *self;
                    assert forall|va: u64| #[trigger]
                        newt.translate_spec(va) == (if same_path(va, virt@, 2) {
                            if leaf_mode(mode) {
                                Some((phys.address | (va & 0xfff)) as u64)
                            } else {
                                None::<u64>
                            }
                        } else {
                            old(self).translate_spec(va)
                        }) by {
                        if same_path(va, virt@, 2) {
                            assert(newt.root_table.find_slot(va, 2) matches Some(slot)
                                && slot.entry.bits() == entry_bits(phys.address, mode, false, false));
                        } else {
                            assert(newt.root_table.find_slot(va, 2) == mid.root_table.find_slot(
                                va,
                                2,
                            ));
                            assert(newt.translate_spec(va) == mid.translate_spec(va));
                        }
                    }
                    assert forall|va: u64| #[trigger]
                        newt.mapped_entry(va) == (if same_path(va, virt@, 2) {
                            Some(entry_bits(phys.address, mode, false, false))
                        } else {
                            old(self).mapped_entry(va)
                        }) by {
                        if same_path(va, virt@, 2) {
                            assert(newt.root_table.find_slot(va, 2) matches Some(slot)
                                && slot.entry.bits() == entry_bits(phys.address, mode, false, false));
                        } else {
                            assert(newt.root_table.find_slot(va, 2) == mid.root_table.find_slot(
                                va,
                                2,
                            ));
                            assert(newt.mapped_entry(va) == mid.mapped_entry(va));
                            assert(mid.root_table.mapped_entry_at(va, 2)
                                == old(self).root_table.mapped_entry_at(va, 2));
                        }
                    }
                }
                Ok(())
            },
        }
    }

    /// Allocates one fresh frame and maps `virt` to it with the requested
    /// mode.  Succeeds exactly when the allocator can serve the target
    /// frame and every missing intermediate table.
    pub fn map(&mut self, virt: VirtualAddress, mode: PageTableEntryMode) -> (result: Result<
        (),
        PageAllocationError,
    >)
        requires
            old(self).wf(),
        ensures
            final(self).wf(),
            final(self).page_allocator@ == old(self).page_allocator@.take(
                final(self).page_allocator@.len() as int,
            ),
            final(self).page_allocator@.len() <= old(self).page_allocator@.len(),
            result is Ok <==> old(self).page_allocator@.len() >= 1 + old(self).tables_to_create(
                virt@,
            ),
            result is Ok ==> final(self).page_allocator@.len() == old(self).page_allocator@.len()
                - 1 - old(self).tables_to_create(virt@),
            result is Err ==> {
                &&& result == Err::<(), PageAllocationError>(PageAllocationError::NoPagesAvailable)
                &&& final(self).page_allocator@.len() == 0
                &&& forall|va: u64|
                    #![trigger final(self).translate_spec(va)]
                    final(self).translate_spec(va) == old(self).translate_spec(va)
                &&& forall|va: u64|
                    #![trigger final(self).mapped_entry(va)]
                    final(self).mapped_entry(va) == old(self).mapped_entry(va)
            },
            result is Ok ==> forall|va: u64|
                #![trigger final(self).translate_spec(va)]
                final(self).translate_spec(va) == (if same_path(va, virt@, 2) {
                    if leaf_mode(mode) {
                        Some((old(self).page_allocator@.last() | (va & 0xfff)) as u64)
                    } else {
                        None::<u64>
                    }
                } else {
                    old(self).translate_spec(va)
                }),
            result is Ok ==> forall|va: u64|
                #![trigger final(self).mapped_entry(va)]
                final(self).mapped_entry(va) == (if same_path(va, virt@, 2) {
                    Some(entry_bits(old(self).page_allocator@.last(), mode, false, false))
                } else {
                    old(self).mapped_entry(va)
                }),
            result is Ok ==> final(self).mapped_entry(virt@) == Some(
                entry_bits(old(self).page_allocator@.last(), mode, false, false),
            ),
            result is Ok && leaf_mode(mode) ==> final(self).translate_spec(virt@) == Some(
                (old(self).page_allocator@.last() | (virt@ & 0xfff)) as u64,
            ),
    {
        let phys = match self.page_allocator.allocate() {
            Ok(page) => page,
            Err(e) => {
                proof {
                    lemma_take_full(self.page_allocator@);
                }
                return Err(e);
            },
        };
        let ghost mid_alloc = self.page_allocator@;
        let result = self.map_to(virt, phys, mode);
        proof {
            lemma_take_of_take(
                old(self).page_allocator@,
                old(self).page_allocator@.len() - 1,
                self.page_allocator@.len() as int,
            );
            assert(old(self).page_allocator@.drop_last() =~= old(self).page_allocator@.take(
                old(self).page_allocator@.len() - 1,
            ));
            if result is Ok {
                lemma_same_path_refl(virt@, 2);
            }
        }
        result
    }

    /// Maps the frame at `phys` so that virtual and physical address
    /// coincide.  The address must be page-aligned and low enough to be a
    /// canonical virtual address with an exactly representable page number.
    pub fn identity_map(&mut self, phys: PageAddr, mode: PageTableEntryMode) -> (result: Result<
        (),
        PageAllocationError,
    >)
        requires
            old(self).wf(),
            phys.address % PAGE_SIZE == 0,
            phys.address < 0x40_0000_0000,
        ensures
            final(self).wf(),
            final(self).page_allocator@ == old(self).page_allocator@.take(
                final(self).page_allocator@.len() as int,
            ),
            final(self).page_allocator@.len() <= old(self).page_allocator@.len(),
            result is Ok <==> old(self).page_allocator@.len() >= old(self).tables_to_create(
                phys.address,
            ),
            result is Ok ==> final(self).page_allocator@.len() == old(self).page_allocator@.len()
                - old(self).tables_to_create(phys.address),
            result is Err ==> {
                &&& result == Err::<(), PageAllocationError>(PageAllocationError::NoPagesAvailable)
                &&& final(self).page_allocator@.len() == 0
                &&& forall|va: u64|
                    #![trigger final(self).translate_spec(va)]
                    final(self).translate_spec(va) == old(self).translate_spec(va)
                &&& forall|va: u64|
                    #![trigger final(self).mapped_entry(va)]
                    final(self).mapped_entry(va) == old(self).mapped_entry(va)
            },
            result is Ok ==> forall|va: u64|
                #![trigger final(self).translate_spec(va)]
                final(self).translate_spec(va) == (if same_path(va, phys.address, 2) {
                    if leaf_mode(mode) {
                        Some((phys.address | (va & 0xfff)) as u64)
                    } else {
                        None::<u64>
                    }
                } else {
                    old(self).translate_spec(va)
                }),
            result is Ok ==> forall|va: u64|
                #![trigger final(self).mapped_entry(va)]
                final(self).mapped_entry(va) == (if same_path(va, phys.address, 2) {
                    Some(entry_bits(phys.address, mode, false, false))
                } else {
                    old(self).mapped_entry(va)
                }),
            result is Ok ==> final(self).mapped_entry(phys.address) == Some(
                entry_bits(phys.address, mode, false, false),
            ),
            result is Ok && leaf_mode(mode) ==> final(self).translate_spec(phys.address) == Some(
                phys.address,
            ),
    {
        proof {
            lemma_low_address_canonical(phys.address);
        }
        let virt = match VirtualAddress::try_from(phys.address) {
            Ok(virt) => virt,
            Err(_) => {
                // unreachable: a page-aligned address below the 39-bit range
                // is canonical, so the conversion cannot fail
                proof {
                    assert(false);
                }
                return Err(PageAllocationError::NoPagesAvailable);
            },
        };
        let result = self.map_to(virt, phys, mode);
        proof {
            if result is Ok {
                let pa = phys.address;
                lemma_same_path_refl(pa, 2);
                assert(pa & 0xfff == 0) by (bit_vector)
                    requires
                        pa % 4096 == 0,
                ;
                lemma_aligned_or_offset(pa, pa & 0xfff);
            }
        }
        result
    }

    /// Looks up `virt` and composes the physical address from the leaf
    /// entry, or reports that the address is not mapped: the leaf slot is
    /// absent, invalid, or not a leaf.
    pub fn translate(&self, virt: VirtualAddress) -> (result: Option<PhysicalAddress>)
        requires
            self.wf(),
        ensures
            result is Some <==> self.translate_spec(virt@) is Some,
            result matches Some(p) ==> self.translate_spec(virt@) == Some(p.address),
    {
        let slot = match self.root_table.walk(virt) {
            None => {
                return None;
            },
            Some(slot) => slot,
        };
        let pte = slot.entry;
        if !(pte.is_leaf() && pte.is_valid()) {
            return None;
        }
        Some(PhysicalAddress::new((pte.physical_page() << 12) | virt.offset()))
    }

    /// The control value that activates this address space: the top four
    /// bits select the three-level Sv39 mode (value 8), the low bits carry
    /// the root table's frame number.
    pub fn satp(&self) -> (value: u64)
        ensures
            value == (8u64 << 60) | (self.root_table.frame_addr() >> 12),
    {
        (8u64 << 60) | (self.root_table.frame_address >> 12)
    }
}


/// Fixed MMIO window of the platform console device.
pub const UART_MMIO_ADDRESS: u64 = 0x1000_0000;

/// Fixed MMIO window of the platform timer/test device.
pub const TEST_DEVICE_MMIO_ADDRESS: u64 = 0x0010_0000;

/// `pa` is one of the frames of the segment `[start, end]` whose first
/// frame starts at the page-aligned address `start`.
pub open spec fn segment_contains(start: u64, end: u64, pa: u64) -> bool {
    &&& start <= pa <= end
    &&& pa % PAGE_SIZE == 0
}

/// The memory segments the boot environment hands in: linker-provided
/// range boundaries, trusted as given and not checked for consistency
/// beyond alignment and the canonical address range.
pub struct MemoryLayout {
    pub text_start: u64,
    pub text_end: u64,
    pub rodata_start: u64,
    pub rodata_end: u64,
    pub data_start: u64,
    pub data_end: u64,
    pub bss_start: u64,
    pub bss_end: u64,
    pub stack_start: u64,
    pub stack_end: u64,
    pub heap_start: u64,
    pub heap_end: u64,
}

impl MemoryLayout {
    /// Every segment starts page-aligned and ends below the canonical
    /// 39-bit range, so each of its frames can be identity-mapped.
    pub open spec fn wf(&self) -> bool {
        &&& self.text_start % PAGE_SIZE == 0 && self.text_end < 0x40_0000_0000
        &&& self.rodata_start % PAGE_SIZE == 0 && self.rodata_end < 0x40_0000_0000
        &&& self.data_start % PAGE_SIZE == 0 && self.data_end < 0x40_0000_0000
        &&& self.bss_start % PAGE_SIZE == 0 && self.bss_end < 0x40_0000_0000
        &&& self.stack_start % PAGE_SIZE == 0 && self.stack_end < 0x40_0000_0000
        &&& self.heap_start % PAGE_SIZE == 0 && self.heap_end < 0x40_0000_0000
    }

    /// The permission mode the initialization sequence leaves on frame
    /// `pa`: the mode of the last mapping that covers it, the segments
    /// being mapped in order and the two MMIO windows last.
    pub open spec fn init_entry_mode(&self, pa: u64) -> PageTableEntryMode {
        if pa == TEST_DEVICE_MMIO_ADDRESS {
            PageTableEntryMode::ReadWrite
        } else if pa == UART_MMIO_ADDRESS {
            PageTableEntryMode::ReadWrite
        } else if segment_contains(self.heap_start, self.heap_end, pa) {
            PageTableEntryMode::ReadWrite
        } else if segment_contains(self.stack_start, self.stack_end, pa) {
            PageTableEntryMode::ReadWrite
        } else if segment_contains(self.bss_start, self.bss_end, pa) {
            PageTableEntryMode::ReadWrite
        } else if segment_contains(self.data_start, self.data_end, pa) {
            PageTableEntryMode::ReadWrite
        } else if segment_contains(self.rodata_start, self.rodata_end, pa) {
            PageTableEntryMode::ReadOnly
        } else {
            PageTableEntryMode::ReadExecute
        }
    }

    /// How many pages the initialization sequence maps: every frame of the
    /// six segments plus the two MMIO windows.  Twice this number of free
    /// frames is always enough for the whole sequence.
    pub open spec fn mapped_page_count(&self) -> nat {
        frame_seq(self.text_start, self.text_end).len() + frame_seq(
            self.rodata_start,
            self.rodata_end,
        ).len() + frame_seq(self.data_start, self.data_end).len() + frame_seq(
            self.bss_start,
            self.bss_end,
        ).len() + frame_seq(self.stack_start, self.stack_end).len() + frame_seq(
            self.heap_start,
            self.heap_end,
        ).len() + 2
    }

    /// `pa` is a frame of one of the six segments.
    pub open spec fn contains_page(&self, pa: u64) -> bool {
        ||| segment_contains(self.text_start, self.text_end, pa)
        ||| segment_contains(self.rodata_start, self.rodata_end, pa)
        ||| segment_contains(self.data_start, self.data_end, pa)
        ||| segment_contains(self.bss_start, self.bss_end, pa)
        ||| segment_contains(self.stack_start, self.stack_end, pa)
        ||| segment_contains(self.heap_start, self.heap_end, pa)
    }
}

/// Within one page, the page-aligned address is unique.
proof fn lemma_aligned_unique_in_page(a: u64, b: u64)
    requires
        a % PAGE_SIZE == 0,
        b % PAGE_SIZE == 0,
        b <= a < b + PAGE_SIZE,
    ensures
        a == b,
{
    assert(a == b) by (bit_vector)
        requires
            a % 4096 == 0,
            b % 4096 == 0,
            b <= a,
            a < b + 4096,
    ;
}

/// An address below the 39-bit range on the full path of a page-aligned
/// frame below that range lies inside that frame: the frame address
/// composed with the address's page offset gives the address back.
pub proof fn lemma_same_path_low_offset(page: u64, va: u64)
    requires
        page % PAGE_SIZE == 0,
        page < 0x40_0000_0000,
        va < 0x40_0000_0000,
        same_path(va, page, 2),
    ensures
        page | (va & 0xfff) == va,
{
    lemma_same_path_full(va, page);
    assert(table_index(va, 2) == (va >> 30) & 0x1ff);
    assert(table_index(va, 1) == (va >> 21) & 0x1ff);
    assert(table_index(va, 0) == (va >> 12) & 0x1ff);
    assert(table_index(page, 2) == (page >> 30) & 0x1ff);
    assert(table_index(page, 1) == (page >> 21) & 0x1ff);
    assert(table_index(page, 0) == (page >> 12) & 0x1ff);
    assert(page | (va & 0xfff) == va) by (bit_vector)
        requires
            (va >> 30) & 0x1ff == (page >> 30) & 0x1ff,
            (va >> 21) & 0x1ff == (page >> 21) & 0x1ff,
            (va >> 12) & 0x1ff == (page >> 12) & 0x1ff,
            page % 4096 == 0,
            page < 0x40_0000_0000,
            va < 0x40_0000_0000,
    ;
}

/// Two page-aligned addresses below the 39-bit range that share the full
/// three-level path are the same address.
pub proof fn lemma_aligned_same_path_equal(q: u64, pa: u64)
    requires
        q % PAGE_SIZE == 0,
        pa % PAGE_SIZE == 0,
        q < 0x40_0000_0000,
        pa < 0x40_0000_0000,
        same_path(pa, q, 2),
    ensures
        pa == q,
{
    lemma_same_path_low_offset(q, pa);
    assert(pa & 0xfff == 0) by (bit_vector)
        requires
            pa % 4096 == 0,
    ;
    lemma_aligned_or_offset(q, 0);
}

impl VirtualMemory {
    /// Identity-maps every frame of the segment `[start, end]` with the
    /// given leaf mode, frame by frame in ascending order.  A failure
    /// aborts the remainder of the segment but leaves what was already
    /// mapped in place.  Identity translations of addresses below the
    /// canonical range survive, so earlier segments stay mapped.
    #[verifier::rlimit(100)]
    fn identity_map_range(
        &mut self,
        start: PageAddr,
        end: PageAddr,
        mode: PageTableEntryMode,
    ) -> (result: Result<(), PageAllocationError>)
        requires
            old(self).wf(),
            start.address % PAGE_SIZE == 0,
            end.address < 0x40_0000_0000,
            leaf_mode(mode),
        ensures
            final(self).wf(),
            final(self).page_allocator@ == old(self).page_allocator@.take(
                final(self).page_allocator@.len() as int,
            ),
            final(self).page_allocator@.len() <= old(self).page_allocator@.len(),
            result is Err ==> result == Err::<(), PageAllocationError>(
                PageAllocationError::NoPagesAvailable,
            ) && final(self).page_allocator@.len() == 0,
            result is Ok ==> forall|pa: u64|
                #![trigger segment_contains(start.address, end.address, pa)]
                segment_contains(start.address, end.address, pa) ==> final(self).translate_spec(
                    pa,
                ) == Some(pa),
            result is Ok ==> forall|pa: u64|
                #![trigger final(self).mapped_entry(pa)]
                segment_contains(start.address, end.address, pa) ==> final(self).mapped_entry(pa)
                    == Some(entry_bits(pa, mode, false, false)),
            forall|pa: u64|
                pa < 0x40_0000_0000 && (#[trigger] old(self).translate_spec(pa)) == Some(pa)
                    ==> final(self).translate_spec(pa) == Some(pa),
            forall|pa: u64|
                #![trigger final(self).mapped_entry(pa)]
                pa % PAGE_SIZE == 0 && pa < 0x40_0000_0000 && !segment_contains(
                    start.address,
                    end.address,
                    pa,
                ) ==> final(self).mapped_entry(pa) == old(self).mapped_entry(pa),
            old(self).page_allocator@.len() >= 2 * frame_seq(start.address, end.address).len()
                ==> (result is Ok && final(self).page_allocator@.len() + 2 * frame_seq(
                start.address,
                end.address,
            ).len() >= old(self).page_allocator@.len()),
    {
        let ghost orig = *old(self);
        let ghost total = frame_seq(start.address, end.address).len();
        let mut range = PageRange::new(start, end);

        loop
            invariant
                self.wf(),
                leaf_mode(mode),
                orig == *old(self),
                total == frame_seq(start.address, end.address).len(),
                range.next_page_spec() >= start.address,
                range.last_page_spec() == end.address,
                end.address < 0x40_0000_0000,
                range.next_page_spec() % PAGE_SIZE == 0,
                self.page_allocator@ == orig.page_allocator@.take(
                    self.page_allocator@.len() as int,
                ),
                self.page_allocator@.len() <= orig.page_allocator@.len(),
                forall|pa: u64|
                    (#[trigger] segment_contains(start.address, end.address, pa)) && pa
                        < range.next_page_spec() ==> self.translate_spec(pa) == Some(pa),
                forall|pa: u64|
                    #![trigger self.mapped_entry(pa)]
                    segment_contains(start.address, end.address, pa) && pa
                        < range.next_page_spec() ==> self.mapped_entry(pa) == Some(
                        entry_bits(pa, mode, false, false),
                    ),
                forall|pa: u64|
                    pa < 0x40_0000_0000 && (#[trigger] orig.translate_spec(pa)) == Some(pa)
                        ==> self.translate_spec(pa) == Some(pa),
                forall|pa: u64|
                    #![trigger self.mapped_entry(pa)]
                    pa % PAGE_SIZE == 0 && pa < 0x40_0000_0000 && !segment_contains(
                        start.address,
                        end.address,
                        pa,
                    ) ==> self.mapped_entry(pa) == orig.mapped_entry(pa),
                orig.page_allocator@.len() >= 2 * total ==> {
                    &&& self.page_allocator@.len() >= 2 * frame_seq(
                        range.next_page_spec(),
                        end.address,
                    ).len()
                    &&& self.page_allocator@.len() + 2 * (total - frame_seq(
                        range.next_page_spec(),
                        end.address,
                    ).len()) >= orig.page_allocator@.len()
                },
            ensures
                range.next_page_spec() > range.last_page_spec(),
            decreases
                    if range.next_page_spec() > range.last_page_spec() {
                        0
                    } else {
                        range.last_page_spec() - range.next_page_spec() + PAGE_SIZE
                    },
        {
            let ghost pre = *self;
            let ghost next = range.next_page_spec();
            match range.next() {
                None => {
                    break;
                },
                Some(page) => {
                    match self.identity_map(page, mode) {
                        Ok(()) => {
                            proof {
                                lemma_take_of_take(
                                    orig.page_allocator@,
                                    pre.page_allocator@.len() as int,
                                    self.page_allocator@.len() as int,
                                );
                                pre.root_table.lemma_missing_tables_bound(page.address, 2);
                                assert(frame_seq(next, end.address) == seq![next] + frame_seq(
                                    (next + PAGE_SIZE) as u64,
                                    end.address,
                                ));

                                assert forall|pa: u64|
                                    #![trigger self.mapped_entry(pa)]
                                    segment_contains(start.address, end.address, pa) && pa
                                        < range.next_page_spec() implies self.mapped_entry(pa)
                                    == Some(entry_bits(pa, mode, false, false)) by {
                                    if pa < next {
                                        assert(pre.mapped_entry(pa) == Some(
                                            entry_bits(pa, mode, false, false),
                                        ));
                                        if same_path(pa, page.address, 2) {
                                            lemma_aligned_same_path_equal(page.address, pa);
                                        }
                                    } else {
                                        lemma_aligned_unique_in_page(pa, next);
                                        lemma_same_path_refl(pa, 2);
                                    }
                                }

                                assert forall|pa: u64|
                                    #![trigger self.mapped_entry(pa)]
                                    pa % PAGE_SIZE == 0 && pa < 0x40_0000_0000
                                        && !segment_contains(
                                        start.address,
                                        end.address,
                                        pa,
                                    ) implies self.mapped_entry(pa) == orig.mapped_entry(pa) by {
                                    assert(pre.mapped_entry(pa) == orig.mapped_entry(pa));
                                    if same_path(pa, page.address, 2) {
                                        lemma_aligned_same_path_equal(page.address, pa);
                                    }
                                }

                                assert forall|pa: u64|
                                    (#[trigger] segment_contains(start.address, end.address, pa))
                                        && pa < range.next_page_spec() implies self.translate_spec(
                                    pa,
                                ) == Some(pa) by {
                                    if pa < next {
                                        assert(pre.translate_spec(pa) == Some(pa));
                                        if same_path(pa, page.address, 2) {
                                            lemma_same_path_low_offset(page.address, pa);
                                        }
                                    } else {
                                        lemma_aligned_unique_in_page(pa, next);
                                        lemma_same_path_refl(pa, 2);
                                        lemma_same_path_low_offset(page.address, pa);
                                    }
                                }

                                assert forall|pa: u64|
                                    pa < 0x40_0000_0000 && (#[trigger] orig.translate_spec(pa))
                                        == Some(pa) implies self.translate_spec(pa) == Some(
                                    pa,
                                ) by {
                                    assert(pre.translate_spec(pa) == Some(pa));
                                    if same_path(pa, page.address, 2) {
                                        lemma_same_path_low_offset(page.address, pa);
                                    }
                                }
                            }
                        },
                        Err(e) => {
                            proof {
                                lemma_take_of_take(
                                    orig.page_allocator@,
                                    pre.page_allocator@.len() as int,
                                    self.page_allocator@.len() as int,
                                );
                                pre.root_table.lemma_missing_tables_bound(page.address, 2);
                                assert(frame_seq(next, end.address) == seq![next] + frame_seq(
                                    (next + PAGE_SIZE) as u64,
                                    end.address,
                                ));
                                // the failing call had fewer than two frames, so the
                                // generous-budget hypothesis cannot have held
                                assert(pre.page_allocator@.len() < 2);

                                assert forall|pa: u64|
                                    #![trigger self.mapped_entry(pa)]
                                    pa % PAGE_SIZE == 0 && pa < 0x40_0000_0000
                                        && !segment_contains(
                                        start.address,
                                        end.address,
                                        pa,
                                    ) implies self.mapped_entry(pa) == orig.mapped_entry(pa) by {
                                    assert(pre.mapped_entry(pa) == orig.mapped_entry(pa));
                                }
                            }
                            return Err(e);
                        },
                    }
                },
            }
        }

        Ok(())
    }

    /// Identity-maps, in order, the executable-code segment (read and
    /// execute), the read-only data, the initialized data, the
    /// uninitialized data, the stack and the heap (all read and write),
    /// and the two fixed MMIO windows of the console and the timer/test
    /// device (read and write), each segment frame by frame.  A single
    /// failed mapping aborts the whole initialization with
    /// `NoPagesAvailable`; identity mappings installed before the failure
    /// remain in place.  On success every frame of every segment and both
    /// MMIO windows translates to itself, and its installed descriptor
    /// carries the mode of the last mapping that covered it.  An allocator
    /// holding two frames per mapped page is always enough, since one
    /// mapping creates at most two intermediate tables.
    pub fn init(&mut self, layout: &MemoryLayout) -> (result: Result<(), PageAllocationError>)
        requires
            old(self).wf(),
            layout.wf(),
        ensures
            final(self).wf(),
            final(self).page_allocator@ == old(self).page_allocator@.take(
                final(self).page_allocator@.len() as int,
            ),
            final(self).page_allocator@.len() <= old(self).page_allocator@.len(),
            old(self).page_allocator@.len() >= 2 * layout.mapped_page_count() ==> result is Ok,
            result is Err ==> result == Err::<(), PageAllocationError>(
                PageAllocationError::NoPagesAvailable,
            ) && final(self).page_allocator@.len() == 0,
            result is Ok ==> forall|pa: u64|
                layout.contains_page(pa) || pa == UART_MMIO_ADDRESS || pa
                    == TEST_DEVICE_MMIO_ADDRESS ==> #[trigger] final(self).translate_spec(pa)
                    == Some(pa),
            result is Ok ==> forall|pa: u64|
                #![trigger final(self).mapped_entry(pa)]
                layout.contains_page(pa) || pa == UART_MMIO_ADDRESS || pa
                    == TEST_DEVICE_MMIO_ADDRESS ==> final(self).mapped_entry(pa) == Some(
                    entry_bits(pa, layout.init_entry_mode(pa), false, false),
                ),
            forall|pa: u64|
                pa < 0x40_0000_0000 && (#[trigger] old(self).translate_spec(pa)) == Some(pa)
                    ==> final(self).translate_spec(pa) == Some(pa),
    {
        let ghost orig = *old(self);
        let ghost hyp = orig.page_allocator@.len() >= 2 * layout.mapped_page_count();

        let text_start = PageAddr { address: layout.text_start };
        let text_end = PageAddr { address: layout.text_end };
        let rodata_start = PageAddr { address: layout.rodata_start };
        let rodata_end = PageAddr { address: layout.rodata_end };
        let data_start = PageAddr { address: layout.data_start };
        let data_end = PageAddr { address: layout.data_end };
        let bss_start = PageAddr { address: layout.bss_start };
        let bss_end = PageAddr { address: layout.bss_end };
        let stack_start = PageAddr { address: layout.stack_start };
        let stack_end = PageAddr { address: layout.stack_end };
        let heap_start = PageAddr { address: layout.heap_start };
        let heap_end = PageAddr { address: layout.heap_end };
        let uart_window = PageAddr { address: UART_MMIO_ADDRESS };
        let test_window = PageAddr { address: TEST_DEVICE_MMIO_ADDRESS };

        let ghost c1 = frame_seq(layout.text_start, layout.text_end).len();
        let ghost c2 = frame_seq(layout.rodata_start, layout.rodata_end).len();
        let ghost c3 = frame_seq(layout.data_start, layout.data_end).len();
        let ghost c4 = frame_seq(layout.bss_start, layout.bss_end).len();
        let ghost c5 = frame_seq(layout.stack_start, layout.stack_end).len();
        let ghost c6 = frame_seq(layout.heap_start, layout.heap_end).len();

        proof {
            assert(text_start.address == layout.text_start && text_end.address
                == layout.text_end);
            assert(rodata_start.address == layout.rodata_start && rodata_end.address
                == layout.rodata_end);
            assert(data_start.address == layout.data_start && data_end.address
                == layout.data_end);
            assert(bss_start.address == layout.bss_start && bss_end.address == layout.bss_end);
            assert(stack_start.address == layout.stack_start && stack_end.address
                == layout.stack_end);
            assert(heap_start.address == layout.heap_start && heap_end.address
                == layout.heap_end);
            assert(uart_window.address == UART_MMIO_ADDRESS && test_window.address
                == TEST_DEVICE_MMIO_ADDRESS);
            assert(layout.mapped_page_count() == c1 + c2 + c3 + c4 + c5 + c6 + 2);
        }

        match self.identity_map_range(text_start, text_end, PageTableEntryMode::ReadExecute) {
            Ok(()) => (),
            Err(e) => {
                proof {
                    assert(!hyp);
                }
                return Err(e);
            },
        }
        let ghost s1 = *self;
        proof {
            assert(hyp ==> s1.page_allocator@.len() >= 2 * (c2 + c3 + c4 + c5 + c6 + 2));
        }

        match self.identity_map_range(rodata_start, rodata_end, PageTableEntryMode::ReadOnly) {
            Ok(()) => (),
            Err(e) => {
                proof {
                    lemma_take_of_take(
                        orig.page_allocator@,
                        s1.page_allocator@.len() as int,
                        self.page_allocator@.len() as int,
                    );
                    assert(!hyp);
                    assert forall|pa: u64|
                        pa < 0x40_0000_0000 && (#[trigger] orig.translate_spec(pa)) == Some(
                            pa,
                        ) implies self.translate_spec(pa) == Some(pa) by {
                        assert(s1.translate_spec(pa) == Some(pa));
                    }
                }
                return Err(e);
            },
        }
        let ghost s2 = *self;
        proof {
            lemma_take_of_take(
                orig.page_allocator@,
                s1.page_allocator@.len() as int,
                s2.page_allocator@.len() as int,
            );
            assert(hyp ==> s2.page_allocator@.len() >= 2 * (c3 + c4 + c5 + c6 + 2));
        }

        match self.identity_map_range(data_start, data_end, PageTableEntryMode::ReadWrite) {
            Ok(()) => (),
            Err(e) => {
                proof {
                    lemma_take_of_take(
                        orig.page_allocator@,
                        s2.page_allocator@.len() as int,
                        self.page_allocator@.len() as int,
                    );
                    assert(!hyp);
                    assert forall|pa: u64|
                        pa < 0x40_0000_0000 && (#[trigger] orig.translate_spec(pa)) == Some(
                            pa,
                        ) implies self.translate_spec(pa) == Some(pa) by {
                        assert(s1.translate_spec(pa) == Some(pa));
                        assert(s2.translate_spec(pa) == Some(pa));
                    }
                }
                return Err(e);
            },
        }
        let ghost s3 = *self;
        proof {
            lemma_take_of_take(
                orig.page_allocator@,
                s2.page_allocator@.len() as int,
                s3.page_allocator@.len() as int,
            );
            assert(hyp ==> s3.page_allocator@.len() >= 2 * (c4 + c5 + c6 + 2));
        }

        match self.identity_map_range(bss_start, bss_end, PageTableEntryMode::ReadWrite) {
            Ok(()) => (),
            Err(e) => {
                proof {
                    lemma_take_of_take(
                        orig.page_allocator@,
                        s3.page_allocator@.len() as int,
                        self.page_allocator@.len() as int,
                    );
                    assert(!hyp);
                    assert forall|pa: u64|
                        pa < 0x40_0000_0000 && (#[trigger] orig.translate_spec(pa)) == Some(
                            pa,
                        ) implies self.translate_spec(pa) == Some(pa) by {
                        assert(s1.translate_spec(pa) == Some(pa));
                        assert(s2.translate_spec(pa) == Some(pa));
                        assert(s3.translate_spec(pa) == Some(pa));
                    }
                }
                return Err(e);
            },
        }
        let ghost s4 = *self;
        proof {
            lemma_take_of_take(
                orig.page_allocator@,
                s3.page_allocator@.len() as int,
                s4.page_allocator@.len() as int,
            );
            assert(hyp ==> s4.page_allocator@.len() >= 2 * (c5 + c6 + 2));
        }

        match self.identity_map_range(stack_start, stack_end, PageTableEntryMode::ReadWrite) {
            Ok(()) => (),
            Err(e) => {
                proof {
                    lemma_take_of_take(
                        orig.page_allocator@,
                        s4.page_allocator@.len() as int,
                        self.page_allocator@.len() as int,
                    );
                    assert(!hyp);
                    assert forall|pa: u64|
                        pa < 0x40_0000_0000 && (#[trigger] orig.translate_spec(pa)) == Some(
                            pa,
                        ) implies self.translate_spec(pa) == Some(pa) by {
                        assert(s1.translate_spec(pa) == Some(pa));
                        assert(s2.translate_spec(pa) == Some(pa));
                        assert(s3.translate_spec(pa) == Some(pa));
                        assert(s4.translate_spec(pa) == Some(pa));
                    }
                }
                return Err(e);
            },
        }
        let ghost s5 = *self;
        proof {
            lemma_take_of_take(
                orig.page_allocator@,
                s4.page_allocator@.len() as int,
                s5.page_allocator@.len() as int,
            );
            assert(hyp ==> s5.page_allocator@.len() >= 2 * (c6 + 2));
        }

        match self.identity_map_range(heap_start, heap_end, PageTableEntryMode::ReadWrite) {
            Ok(()) => (),
            Err(e) => {
                proof {
                    lemma_take_of_take(
                        orig.page_allocator@,
                        s5.page_allocator@.len() as int,
                        self.page_allocator@.len() as int,
                    );
                    assert(!hyp);
                    assert forall|pa: u64|
                        pa < 0x40_0000_0000 && (#[trigger] orig.translate_spec(pa)) == Some(
                            pa,
                        ) implies self.translate_spec(pa) == Some(pa) by {
                        assert(s1.translate_spec(pa) == Some(pa));
                        assert(s2.translate_spec(pa) == Some(pa));
                        assert(s3.translate_spec(pa) == Some(pa));
                        assert(s4.translate_spec(pa) == Some(pa));
                        assert(s5.translate_spec(pa) == Some(pa));
                    }
                }
                return Err(e);
            },
        }
        let ghost s6 = *self;
        proof {
            lemma_take_of_take(
                orig.page_allocator@,
                s5.page_allocator@.len() as int,
                s6.page_allocator@.len() as int,
            );
            assert(hyp ==> s6.page_allocator@.len() >= 4);
            s6.root_table.lemma_missing_tables_bound(UART_MMIO_ADDRESS, 2);
        }

        match self.identity_map(uart_window, PageTableEntryMode::ReadWrite) {
            Ok(()) => (),
            Err(e) => {
                proof {
                    lemma_take_of_take(
                        orig.page_allocator@,
                        s6.page_allocator@.len() as int,
                        self.page_allocator@.len() as int,
                    );
                    assert(!hyp);
                    assert forall|pa: u64|
                        pa < 0x40_0000_0000 && (#[trigger] orig.translate_spec(pa)) == Some(
                            pa,
                        ) implies self.translate_spec(pa) == Some(pa) by {
                        assert(s1.translate_spec(pa) == Some(pa));
                        assert(s2.translate_spec(pa) == Some(pa));
                        assert(s3.translate_spec(pa) == Some(pa));
                        assert(s4.translate_spec(pa) == Some(pa));
                        assert(s5.translate_spec(pa) == Some(pa));
                        assert(s6.translate_spec(pa) == Some(pa));
                    }
                }
                return Err(e);
            },
        }
        let ghost s7 = *self;
        proof {
            lemma_take_of_take(
                orig.page_allocator@,
                s6.page_allocator@.len() as int,
                s7.page_allocator@.len() as int,
            );
            assert(hyp ==> s7.page_allocator@.len() >= 2);
            s7.root_table.lemma_missing_tables_bound(TEST_DEVICE_MMIO_ADDRESS, 2);
            assert forall|pa: u64|
                pa < 0x40_0000_0000 && (#[trigger] s6.translate_spec(pa)) == Some(pa) implies
                s7.translate_spec(pa) == Some(pa) by {
                if same_path(pa, UART_MMIO_ADDRESS, 2) {
                    lemma_same_path_low_offset(UART_MMIO_ADDRESS, pa);
                }
            }
        }

        match self.identity_map(test_window, PageTableEntryMode::ReadWrite) {
            Ok(()) => (),
            Err(e) => {
                proof {
                    lemma_take_of_take(
                        orig.page_allocator@,
                        s7.page_allocator@.len() as int,
                        self.page_allocator@.len() as int,
                    );
                    assert(!hyp);
                    assert forall|pa: u64|
                        pa < 0x40_0000_0000 && (#[trigger] orig.translate_spec(pa)) == Some(
                            pa,
                        ) implies self.translate_spec(pa) == Some(pa) by {
                        assert(s1.translate_spec(pa) == Some(pa));
                        assert(s2.translate_spec(pa) == Some(pa));
                        assert(s3.translate_spec(pa) == Some(pa));
                        assert(s4.translate_spec(pa) == Some(pa));
                        assert(s5.translate_spec(pa) == Some(pa));
                        assert(s6.translate_spec(pa) == Some(pa));
                        assert(s7.translate_spec(pa) == Some(pa));
                    }
                }
                return Err(e);
            },
        }
        let ghost s8 = *self;
        proof {
            lemma_take_of_take(
                orig.page_allocator@,
                s7.page_allocator@.len() as int,
                s8.page_allocator@.len() as int,
            );
            assert forall|pa: u64|
                pa < 0x40_0000_0000 && (#[trigger] s7.translate_spec(pa)) == Some(pa) implies
                s8.translate_spec(pa) == Some(pa) by {
                if same_path(pa, TEST_DEVICE_MMIO_ADDRESS, 2) {
                    lemma_same_path_low_offset(TEST_DEVICE_MMIO_ADDRESS, pa);
                }
            }

            assert forall|pa: u64|
                pa < 0x40_0000_0000 && (#[trigger] orig.translate_spec(pa)) == Some(pa) implies
                s8.translate_spec(pa) == Some(pa) by {
                assert(s1.translate_spec(pa) == Some(pa));
                assert(s2.translate_spec(pa) == Some(pa));
                assert(s3.translate_spec(pa) == Some(pa));
                assert(s4.translate_spec(pa) == Some(pa));
                assert(s5.translate_spec(pa) == Some(pa));
                assert(s6.translate_spec(pa) == Some(pa));
                assert(s7.translate_spec(pa) == Some(pa));
            }

            assert forall|pa: u64|
                layout.contains_page(pa) || pa == UART_MMIO_ADDRESS || pa
                    == TEST_DEVICE_MMIO_ADDRESS implies #[trigger] s8.translate_spec(pa) == Some(
                pa,
            ) by {
                if segment_contains(layout.text_start, layout.text_end, pa) {
                    assert(s1.translate_spec(pa) == Some(pa));
                    assert(s2.translate_spec(pa) == Some(pa));
                    assert(s3.translate_spec(pa) == Some(pa));
                    assert(s4.translate_spec(pa) == Some(pa));
                    assert(s5.translate_spec(pa) == Some(pa));
                    assert(s6.translate_spec(pa) == Some(pa));
                    assert(s7.translate_spec(pa) == Some(pa));
                } else if segment_contains(layout.rodata_start, layout.rodata_end, pa) {
                    assert(s2.translate_spec(pa) == Some(pa));
                    assert(s3.translate_spec(pa) == Some(pa));
                    assert(s4.translate_spec(pa) == Some(pa));
                    assert(s5.translate_spec(pa) == Some(pa));
                    assert(s6.translate_spec(pa) == Some(pa));
                    assert(s7.translate_spec(pa) == Some(pa));
                } else if segment_contains(layout.data_start, layout.data_end, pa) {
                    assert(s3.translate_spec(pa) == Some(pa));
                    assert(s4.translate_spec(pa) == Some(pa));
                    assert(s5.translate_spec(pa) == Some(pa));
                    assert(s6.translate_spec(pa) == Some(pa));
                    assert(s7.translate_spec(pa) == Some(pa));
                } else if segment_contains(layout.bss_start, layout.bss_end, pa) {
                    assert(s4.translate_spec(pa) == Some(pa));
                    assert(s5.translate_spec(pa) == Some(pa));
                    assert(s6.translate_spec(pa) == Some(pa));
                    assert(s7.translate_spec(pa) == Some(pa));
                } else if segment_contains(layout.stack_start, layout.stack_end, pa) {
                    assert(s5.translate_spec(pa) == Some(pa));
                    assert(s6.translate_spec(pa) == Some(pa));
                    assert(s7.translate_spec(pa) == Some(pa));
                } else if segment_contains(layout.heap_start, layout.heap_end, pa) {
                    assert(s6.translate_spec(pa) == Some(pa));
                    assert(s7.translate_spec(pa) == Some(pa));
                } else if pa == UART_MMIO_ADDRESS {
                    assert(s7.translate_spec(pa) == Some(pa));
                }
            }

            assert forall|pa: u64|
                #![trigger s8.mapped_entry(pa)]
                layout.contains_page(pa) || pa == UART_MMIO_ADDRESS || pa
                    == TEST_DEVICE_MMIO_ADDRESS implies s8.mapped_entry(pa) == Some(
                entry_bits(pa, layout.init_entry_mode(pa), false, false),
            ) by {
                if pa == TEST_DEVICE_MMIO_ADDRESS {
                } else if pa == UART_MMIO_ADDRESS {
                    assert(s7.mapped_entry(pa) == Some(
                        entry_bits(pa, PageTableEntryMode::ReadWrite, false, false),
                    ));
                    if same_path(pa, TEST_DEVICE_MMIO_ADDRESS, 2) {
                        lemma_aligned_same_path_equal(TEST_DEVICE_MMIO_ADDRESS, pa);
                    }
                } else if segment_contains(layout.heap_start, layout.heap_end, pa) {
                    assert(s6.mapped_entry(pa) == Some(
                        entry_bits(pa, PageTableEntryMode::ReadWrite, false, false),
                    ));
                    if same_path(pa, UART_MMIO_ADDRESS, 2) {
                        lemma_aligned_same_path_equal(UART_MMIO_ADDRESS, pa);
                    }
                    assert(s7.mapped_entry(pa) == s6.mapped_entry(pa));
                    if same_path(pa, TEST_DEVICE_MMIO_ADDRESS, 2) {
                        lemma_aligned_same_path_equal(TEST_DEVICE_MMIO_ADDRESS, pa);
                    }
                    assert(s8.mapped_entry(pa) == s7.mapped_entry(pa));
                } else if segment_contains(layout.stack_start, layout.stack_end, pa) {
                    assert(s5.mapped_entry(pa) == Some(
                        entry_bits(pa, PageTableEntryMode::ReadWrite, false, false),
                    ));
                    assert(s6.mapped_entry(pa) == s5.mapped_entry(pa));
                    if same_path(pa, UART_MMIO_ADDRESS, 2) {
                        lemma_aligned_same_path_equal(UART_MMIO_ADDRESS, pa);
                    }
                    assert(s7.mapped_entry(pa) == s6.mapped_entry(pa));
                    if same_path(pa, TEST_DEVICE_MMIO_ADDRESS, 2) {
                        lemma_aligned_same_path_equal(TEST_DEVICE_MMIO_ADDRESS, pa);
                    }
                    assert(s8.mapped_entry(pa) == s7.mapped_entry(pa));
                } else if segment_contains(layout.bss_start, layout.bss_end, pa) {
                    assert(s4.mapped_entry(pa) == Some(
                        entry_bits(pa, PageTableEntryMode::ReadWrite, false, false),
                    ));
                    assert(s5.mapped_entry(pa) == s4.mapped_entry(pa));
                    assert(s6.mapped_entry(pa) == s5.mapped_entry(pa));
                    if same_path(pa, UART_MMIO_ADDRESS, 2) {
                        lemma_aligned_same_path_equal(UART_MMIO_ADDRESS, pa);
                    }
                    assert(s7.mapped_entry(pa) == s6.mapped_entry(pa));
                    if same_path(pa, TEST_DEVICE_MMIO_ADDRESS, 2) {
                        lemma_aligned_same_path_equal(TEST_DEVICE_MMIO_ADDRESS, pa);
                    }
                    assert(s8.mapped_entry(pa) == s7.mapped_entry(pa));
                } else if segment_contains(layout.data_start, layout.data_end, pa) {
                    assert(s3.mapped_entry(pa) == Some(
                        entry_bits(pa, PageTableEntryMode::ReadWrite, false, false),
                    ));
                    assert(s4.mapped_entry(pa) == s3.mapped_entry(pa));
                    assert(s5.mapped_entry(pa) == s4.mapped_entry(pa));
                    assert(s6.mapped_entry(pa) == s5.mapped_entry(pa));
                    if same_path(pa, UART_MMIO_ADDRESS, 2) {
                        lemma_aligned_same_path_equal(UART_MMIO_ADDRESS, pa);
                    }
                    assert(s7.mapped_entry(pa) == s6.mapped_entry(pa));
                    if same_path(pa, TEST_DEVICE_MMIO_ADDRESS, 2) {
                        lemma_aligned_same_path_equal(TEST_DEVICE_MMIO_ADDRESS, pa);
                    }
                    assert(s8.mapped_entry(pa) == s7.mapped_entry(pa));
                } else if segment_contains(layout.rodata_start, layout.rodata_end, pa) {
                    assert(s2.mapped_entry(pa) == Some(
                        entry_bits(pa, PageTableEntryMode::ReadOnly, false, false),
                    ));
                    assert(s3.mapped_entry(pa) == s2.mapped_entry(pa));
                    assert(s4.mapped_entry(pa) == s3.mapped_entry(pa));
                    assert(s5.mapped_entry(pa) == s4.mapped_entry(pa));
                    assert(s6.mapped_entry(pa) == s5.mapped_entry(pa));
                    if same_path(pa, UART_MMIO_ADDRESS, 2) {
                        lemma_aligned_same_path_equal(UART_MMIO_ADDRESS, pa);
                    }
                    assert(s7.mapped_entry(pa) == s6.mapped_entry(pa));
                    if same_path(pa, TEST_DEVICE_MMIO_ADDRESS, 2) {
                        lemma_aligned_same_path_equal(TEST_DEVICE_MMIO_ADDRESS, pa);
                    }
                    assert(s8.mapped_entry(pa) == s7.mapped_entry(pa));
                } else {
                    assert(segment_contains(layout.text_start, layout.text_end, pa));
                    assert(s1.mapped_entry(pa) == Some(
                        entry_bits(pa, PageTableEntryMode::ReadExecute, false, false),
                    ));
                    assert(s2.mapped_entry(pa) == s1.mapped_entry(pa));
                    assert(s3.mapped_entry(pa) == s2.mapped_entry(pa));
                    assert(s4.mapped_entry(pa) == s3.mapped_entry(pa));
                    assert(s5.mapped_entry(pa) == s4.mapped_entry(pa));
                    assert(s6.mapped_entry(pa) == s5.mapped_entry(pa));
                    if same_path(pa, UART_MMIO_ADDRESS, 2) {
                        lemma_aligned_same_path_equal(UART_MMIO_ADDRESS, pa);
                    }
                    assert(s7.mapped_entry(pa) == s6.mapped_entry(pa));
                    if same_path(pa, TEST_DEVICE_MMIO_ADDRESS, 2) {
                        lemma_aligned_same_path_equal(TEST_DEVICE_MMIO_ADDRESS, pa);
                    }
                    assert(s8.mapped_entry(pa) == s7.mapped_entry(pa));
                }
            }
        }

        Ok(())
    }
}

} // verus!
