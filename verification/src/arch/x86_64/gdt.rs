//! Global Descriptor Table (GDT) management.

use vstd::prelude::*;

use super::PrivilegeLevel;

verus! {

/// The number of entries of the table.
pub const GDT_ENTRIES: usize = 3;

/// The index of the descriptor of the kernel's code.
pub const KERNEL_CODE_INDEX: u16 = 1;

/// The index of the descriptor of the kernel's data.
pub const KERNEL_DATA_INDEX: u16 = 2;

/// Indicates the entry is a 32-bit entry.
pub const PROTECTED_MODE: u8 = 0x40;

/// Indicates the entry is a 64-bit entry.
pub const LONG_MODE: u8 = 0x20;

/// The present flag: This is always 1 for a valid entry.
pub const ACCESS_PRESENT: u8 = 0x80;

/// Kernel privilege flag: This indicates the segment is a kernel segment.
pub const ACCESS_KERNEL: u8 = 0x00;

/// User privilege flag: This indicates the segment is a user segment.
pub const ACCESS_USER: u8 = 0x60;

/// System flag: If present, this is a code or data segment, if absent this is
/// a system segment.
pub const ACCESS_SYSTEM: u8 = 0x10;

/// Executable flag: If present, this flag is a code segment which can be
/// executed from, if absent this is a data segment.
pub const ACCESS_EXECUTABLE: u8 = 0x08;

/// Direction flag of a data segment, conforming flag of a code segment.
pub const ACCESS_DIRECTION: u8 = 0x04;

/// The read/write flag: a data segment can be written to, a code segment can
/// be read from.
pub const ACCESS_READ_WRITE: u8 = 0x02;

/// The access byte of the descriptor of the kernel's code: present, kernel,
/// code or data, executable, readable.
pub const KERNEL_CODE_ACCESS: u8 = 0x9A;

/// The access byte of the descriptor of the kernel's data: present, kernel,
/// code or data, writeable.
pub const KERNEL_DATA_ACCESS: u8 = 0x92;

/// Flags for GDT entries.
#[derive(Debug, Copy, Clone, PartialEq, Eq, Structural)]
pub struct GdtEntryFlags {
    /// The flags, each at its bit.
    pub bits: u8,
}

impl GdtEntryFlags {
    /// No flag.
    pub fn empty() -> (r: Self)
        ensures
            r.bits == 0,
    {
        Self { bits: 0 }
    }

    /// The flags among `bits`; bits that are no flag are dropped.
    pub fn from_bits_truncate(bits: u8) -> (r: Self)
        ensures
            r.bits == bits & 0x60,
    {
        Self { bits: bits & 0x60 }
    }

    /// The flags, each at its bit.
    pub fn bits(&self) -> (r: u8)
        ensures
            r == self.bits,
    {
        self.bits
    }
}

/// A segment selector is a reference to a segment in the GDT, used to load a
/// segment register. Internally this is represented as a 16-bit value, where
/// the bottom two bits represent the privilege level of the segment, and the
/// remaining bits represent the index of the segment in the GDT.
#[derive(Debug, Copy, Clone, PartialEq, Eq, Structural)]
pub struct SegmentSelector(pub u16);

impl SegmentSelector {
    /// Creates a new segment selector given a GDT index and privilege level.
    pub fn new(index: u16, privilege: PrivilegeLevel) -> (r: Self)
        ensures
            r.0 == (index << 3) | (privilege.ring() as u16),
            index < 0x2000 ==> r.0 == index * 8 + privilege.ring(),
    {
        let ring = privilege.bits() as u16;
        assert(index < 0x2000 && ring <= 3 ==> (index << 3) | ring == index * 8 + ring)
            by (bit_vector);
        Self((index << 3) | ring)
    }

    /// Returns the raw 16-bit value of the segment selector.
    pub fn bits(self) -> (r: u16)
        ensures
            r == self.0,
    {
        self.0
    }
}

/// The GDT descriptor contains the size and location of the GDT in memory.
/// This is used to load the GDT into the CPU with the `lgdt` instruction.
#[derive(Debug, Copy, Clone, PartialEq, Eq, Structural)]
pub struct GdtDescriptor {
    /// The size of the GDT in bytes, subtracted by 1.
    pub size: u16,
    /// The address of the GDT in memory.
    pub offset: u64,
}

impl GdtDescriptor {
    /// Create a new GDT descriptor with the given size and offset.
    pub fn new(size: u16, offset: u64) -> (r: Self)
        ensures
            r.size == size,
            r.offset == offset,
    {
        Self { size, offset }
    }

    /// The descriptor of the table of [`GDT_ENTRIES`] entries of eight bytes
    /// at `offset`.
    pub fn for_table(offset: u64) -> (r: Self)
        ensures
            r.size == 23,
            r.offset == offset,
    {
        Self::new((GDT_ENTRIES * 8 - 1) as u16, offset)
    }
}

/// A singular GDT entry. This is a 64-bit structure which represents a single
/// segment in the GDT. On ``x86_64``, the base and limit are ignored, and
/// each segment covers the entire address space.
#[derive(Debug, Copy, Clone, PartialEq, Eq, Structural)]
pub struct GdtEntry {
    /// The bottom 16 bits of the segment limit.
    pub limit_low: u16,
    /// The bottom 16 bits of the base address.
    pub base_low: u16,
    /// The middle 8 bits of the base address.
    pub base_middle: u8,
    /// The access flags for the segment.
    pub access: u8,
    /// The lower four bits represent the upper four bits of the limit. The
    /// upper four bits represent flags.
    pub limit_high_flags: u8,
    /// The upper 8 bits of the base address.
    pub base_high: u8,
}

impl GdtEntry {
    /// Create a new GDT entry with the given access flags and flags: base
    /// and limit are zero.
    pub fn new(access: u8, flags: GdtEntryFlags) -> (r: Self)
        ensures
            r == (GdtEntry {
                limit_low: 0,
                base_low: 0,
                base_middle: 0,
                access,
                limit_high_flags: flags.bits & 0xF0,
                base_high: 0,
            }),
    {
        Self {
            limit_low: 0x00,
            base_low: 0x00,
            base_middle: 0x00,
            access,
            limit_high_flags: flags.bits() & 0xF0,
            base_high: 0x00,
        }
    }

    /// A null GDT entry with all fields set to 0. All GDT's must contain a
    /// null descriptor as their first entry.
    pub fn null() -> (r: Self)
        ensures
            r == (GdtEntry {
                limit_low: 0,
                base_low: 0,
                base_middle: 0,
                access: 0,
                limit_high_flags: 0,
                base_high: 0,
            }),
    {
        assert(0u8 & 0xF0 == 0) by (bit_vector);
        Self::new(0, GdtEntryFlags::empty())
    }
}

/// The entries of the table of the kernel: the null descriptor, the
/// descriptor of the kernel's code and that of its data, both for 64-bit
/// mode.
pub fn kernel_gdt() -> (r: [GdtEntry; 3])
    ensures
        r[0].access == 0 && r[0].limit_high_flags == 0,
        r[1].access == KERNEL_CODE_ACCESS && r[1].limit_high_flags == LONG_MODE,
        r[2].access == KERNEL_DATA_ACCESS && r[2].limit_high_flags == LONG_MODE,
        forall|i: int|
            0 <= i < 3 ==> r[i].limit_low == 0 && r[i].base_low == 0 && r[i].base_middle == 0
                && r[i].base_high == 0,
{
    assert((0x20u8 & 0x60) & 0xF0 == 0x20) by (bit_vector);
    let long_mode = GdtEntryFlags::from_bits_truncate(LONG_MODE);
    [
        GdtEntry::null(),
        GdtEntry::new(KERNEL_CODE_ACCESS, long_mode),
        GdtEntry::new(KERNEL_DATA_ACCESS, long_mode),
    ]
}

} // verus!
