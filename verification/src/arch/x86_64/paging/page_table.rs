//! The entries of a page table and their flags.

use vstd::prelude::*;

use crate::memory::addr::PhysAddr;
use crate::memory::frame::{Frame, FrameError};

verus! {

/// The page is mapped.
pub const PRESENT: u64 = 1;

/// The page can be written to.
pub const WRITEABLE: u64 = 0x2;

/// The page can be reached from user mode.
pub const USER_ACCESSIBLE: u64 = 0x4;

/// Writes go through the cache to memory.
pub const WRITE_THROUGH: u64 = 0x8;

/// The page is not cached.
pub const NO_CACHE: u64 = 0x10;

/// The page was read or written.
pub const ACCESSED: u64 = 0x20;

/// The page was written.
pub const DIRTY: u64 = 0x40;

/// The entry maps a large page and points to no further table.
pub const HUGE_PAGE: u64 = 0x80;

/// The mapping is kept in the translation cache when the address space is
/// switched.
pub const GLOBAL: u64 = 0x100;

/// No instruction can be fetched from the page.
pub const NO_EXECUTE: u64 = 0x8000_0000_0000_0000;

/// The flags of an entry that points to a table: present, writeable and open
/// to user mode.
pub const TABLE_FLAGS: u64 = 0x7;

/// The bits of an entry that hold the address of a frame: bits 12 to 51.
pub const ADDR_MASK: u64 = 0x000F_FFFF_FFFF_F000;

/// The bits of an entry that hold flags.
pub const FLAGS_MASK: u64 = 0x8000_0000_0000_01FF;

/// The flags of an entry of a page table.
#[derive(Debug, Copy, Clone, PartialEq, Eq, Structural)]
pub struct PageTableFlags {
    /// The flags, each at its bit.
    pub bits: u64,
}

impl PageTableFlags {
    /// No bit is set that is no flag.
    pub open spec fn valid(self) -> bool {
        self.bits & !FLAGS_MASK == 0
    }

    /// Every flag of `other` is set.
    pub open spec fn has(self, other: u64) -> bool {
        self.bits & other == other
    }

    /// No flag.
    pub fn empty() -> (r: Self)
        ensures
            r.bits == 0,
            r.valid(),
    {
        assert(0u64 & !FLAGS_MASK == 0) by (bit_vector);
        Self { bits: 0 }
    }

    /// The flags among `bits`; bits that are no flag are dropped.
    pub fn from_bits_truncate(bits: u64) -> (r: Self)
        ensures
            r.bits == bits & FLAGS_MASK,
            r.valid(),
    {
        assert((bits & FLAGS_MASK) & !FLAGS_MASK == 0) by (bit_vector);
        Self { bits: bits & FLAGS_MASK }
    }

    /// The flags, each at its bit.
    pub fn bits(&self) -> (r: u64)
        ensures
            r == self.bits,
    {
        self.bits
    }

    /// Whether every flag of `other` is set.
    pub fn contains(&self, other: PageTableFlags) -> (r: bool)
        ensures
            r == self.has(other.bits),
    {
        self.bits & other.bits == other.bits
    }

    /// The flags of both.
    pub fn union(self, other: PageTableFlags) -> (r: Self)
        ensures
            r.bits == self.bits | other.bits,
            self.valid() && other.valid() ==> r.valid(),
    {
        let a = self.bits;
        let b = other.bits;
        assert(a & !FLAGS_MASK == 0 && b & !FLAGS_MASK == 0 ==> (a | b) & !FLAGS_MASK == 0)
            by (bit_vector);
        Self { bits: self.bits | other.bits }
    }
}

/// The entry has the present flag.
pub open spec fn entry_present(e: u64) -> bool {
    e & PRESENT == PRESENT
}

/// The entry has the flag of a large page.
pub open spec fn entry_huge(e: u64) -> bool {
    e & HUGE_PAGE == HUGE_PAGE
}

/// The address that the entry holds.
pub open spec fn entry_addr(e: u64) -> u64 {
    e & ADDR_MASK
}

/// The frame that the entry points to, or why it points to none.
pub open spec fn entry_frame(e: u64) -> Result<Frame, FrameError> {
    if !entry_present(e) {
        Err(FrameError::FrameNotPresent)
    } else if entry_huge(e) {
        Err(FrameError::HugePageNotSupported)
    } else {
        Ok(Frame { start: PhysAddr(entry_addr(e)) })
    }
}

/// The entry `e` after its address was set to `addr` and its flags to
/// `flags`.
pub open spec fn entry_with(e: u64, addr: u64, flags: u64) -> u64 {
    (((e & !ADDR_MASK) | addr) & !FLAGS_MASK) | flags
}

/// What holds of every entry: its address is page-aligned and below 2^52,
/// and an entry of zero is not present.
pub proof fn lemma_entry_facts(e: u64)
    by (bit_vector)
    ensures
        (e & 0x000F_FFFF_FFFF_F000) % 4096 == 0,
        (e & 0x000F_FFFF_FFFF_F000) < 0x10_0000_0000_0000,
        e & 1 == 1 ==> e != 0,
        0u64 & 1 == 0,
        0u64 & 0x80 == 0,
        0u64 & 0x000F_FFFF_FFFF_F000 == 0,
{
}

/// What holds of an unused entry after its address and flags were set: it
/// holds the flags and, of a page-aligned address below 2^52, the address.
pub proof fn lemma_entry_with(addr: u64, flags: u64)
    by (bit_vector)
    requires
        flags & !0x8000_0000_0000_01FFu64 == 0,
    ensures
        ({
            let e = (((0u64 & !0x000F_FFFF_FFFF_F000u64) | addr) & !0x8000_0000_0000_01FFu64)
                | flags;
            &&& e & 0x000F_FFFF_FFFF_F000 == addr & 0x000F_FFFF_FFFF_F000
            &&& e & 1 == flags & 1
            &&& e & 0x80 == flags & 0x80
            &&& e & 0x8000_0000_0000_01FF == flags
            &&& addr % 4096 == 0 && addr < 0x10_0000_0000_0000 ==> e & 0x000F_FFFF_FFFF_F000
                == addr
        }),
        7u64 & !0x8000_0000_0000_01FFu64 == 0,
        7u64 & 0x8000_0000_0000_01FFu64 == 7,
        7u64 & 1 == 1,
        7u64 & 0x80 == 0,
        flags & 0x80 == 0x80 <==> flags & 0x80 != 0,
{
}

/// What holds of the entry that links to the table at a page-aligned address
/// below 2^52: it is present, marks no large page and holds the address.
pub proof fn lemma_table_entry(addr: u64)
    by (bit_vector)
    requires
        addr % 4096 == 0,
        addr < 0x10_0000_0000_0000,
    ensures
        ({
            let e = (((0u64 & !0x000F_FFFF_FFFF_F000u64) | addr) & !0x8000_0000_0000_01FFu64)
                | 7u64;
            &&& e & 0x000F_FFFF_FFFF_F000 == addr
            &&& e & 1 == 1
            &&& e & 0x80 != 0x80
        }),
        7u64 & !0x8000_0000_0000_01FFu64 == 0,
        7u64 & 0x8000_0000_0000_01FFu64 == 7,
        7u64 & 0x80 != 0x80,
{
}

/// One entry of a page table: the address of a frame in bits 12 to 51, and
/// flags.
#[derive(Debug, Clone, Copy, PartialEq, Eq, Structural)]
pub struct PageTableEntry(pub u64);

impl PageTableEntry {
    /// Whether the entry is zero.
    pub fn is_unused(&self) -> (r: bool)
        ensures
            r == (self.0 == 0),
    {
        self.0 == 0
    }

    /// Sets the entry to zero.
    pub fn set_unused(&mut self)
        ensures
            final(self).0 == 0,
    {
        self.0 = 0;
    }

    /// The flags of the entry.
    pub fn flags(&self) -> (r: PageTableFlags)
        ensures
            r.bits == self.0 & FLAGS_MASK,
            r.valid(),
    {
        PageTableFlags::from_bits_truncate(self.0)
    }

    /// The address that the entry holds.
    pub fn addr(&self) -> (r: PhysAddr)
        ensures
            r.0 == entry_addr(self.0),
            r.0 % 4096 == 0,
            r.0 < 0x10_0000_0000_0000,
    {
        proof {
            lemma_entry_facts(self.0);
        }
        PhysAddr::new(self.0 & ADDR_MASK)
    }

    /// The frame that the entry points to.
    ///
    /// # Errors
    /// - [`FrameError::FrameNotPresent`] if the entry is not present.
    /// - [`FrameError::HugePageNotSupported`] if the entry maps a large page.
    pub fn frame(&self) -> (r: Result<Frame, FrameError>)
        ensures
            r == entry_frame(self.0),
    {
        let e = self.0;
        assert((e & 0x8000_0000_0000_01FF) & 1 == e & 1 && (e & 0x8000_0000_0000_01FF) & 0x80 == e
            & 0x80 && 1u64 & 0x8000_0000_0000_01FF == 1 && 0x80u64 & 0x8000_0000_0000_01FF == 0x80)
            by (bit_vector);
        if !self.flags().contains(PageTableFlags::from_bits_truncate(PRESENT)) {
            return Err(FrameError::FrameNotPresent);
        } else if self.flags().contains(PageTableFlags::from_bits_truncate(HUGE_PAGE)) {
            return Err(FrameError::HugePageNotSupported);
        }
        proof {
            lemma_entry_facts(e);
        }
        Ok(Frame::containing_addr(self.addr()))
    }

    /// Sets the address and the flags of the entry. The address must be
    /// page-aligned.
    pub fn set_addr(&mut self, addr: PhysAddr, flags: PageTableFlags)
        requires
            addr.0 % 4096 == 0,
        ensures
            final(self).0 == entry_with(old(self).0, addr.0, flags.bits),
    {
        self.0 = self.0 & !ADDR_MASK;
        self.0 = self.0 | addr.0;
        self.set_flags(flags)
    }

    /// Sets the address of the entry to that of the frame, and its flags.
    /// The flags must not hold that of a large page.
    pub fn set_frame(&mut self, frame: Frame, flags: PageTableFlags)
        requires
            frame.start.0 % 4096 == 0,
            !flags.has(HUGE_PAGE),
        ensures
            final(self).0 == entry_with(old(self).0, frame.start.0, flags.bits),
    {
        self.set_addr(frame.start_addr(), flags);
    }

    /// Sets the flags of the entry and keeps its address.
    pub fn set_flags(&mut self, flags: PageTableFlags)
        ensures
            final(self).0 == (old(self).0 & !FLAGS_MASK) | flags.bits,
    {
        self.0 = self.0 & !FLAGS_MASK;
        self.0 = self.0 | flags.bits();
    }
}

/// One level of the tree of page tables: 512 entries.
#[derive(Debug)]
pub struct PageTable {
    entries: Vec<PageTableEntry>,
}

impl PageTable {
    /// The entries, as words.
    pub closed spec fn view(&self) -> Seq<u64> {
        Seq::new(self.entries@.len(), |i: int| self.entries@[i].0)
    }

    /// The table has 512 entries.
    pub closed spec fn wf(&self) -> bool {
        self.entries@.len() == 512
    }

    /// A table of unused entries.
    pub fn new() -> (r: Self)
        ensures
            r.wf(),
            r@.len() == 512,
            forall|i: int| 0 <= i < 512 ==> r@[i] == 0,
    {
        let mut entries: Vec<PageTableEntry> = Vec::new();
        entries.resize(512, PageTableEntry(0));
        Self { entries }
    }

    /// Sets every entry to unused.
    pub fn zero(&mut self)
        requires
            old(self).wf(),
        ensures
            final(self).wf(),
            final(self)@.len() == 512,
            forall|i: int| 0 <= i < 512 ==> final(self)@[i] == 0,
    {
        let mut i: usize = 0;
        while i < 512
            invariant
                i <= 512,
                self.wf(),
                forall|j: int| 0 <= j < i ==> (#[trigger] self.entries@[j]).0 == 0,
            decreases 512 - i,
        {
            self.entries.set(i, PageTableEntry(0));
            i += 1;
        }
        assert forall|i: int| 0 <= i < 512 implies self@[i] == 0 by {
            assert(self.entries@[i].0 == 0);
        }
    }

    /// Entry `index` of the table.
    pub fn entry(&self, index: usize) -> (r: PageTableEntry)
        requires
            self.wf(),
            index < 512,
        ensures
            r.0 == self@[index as int],
    {
        self.entries[index]
    }

    /// Sets entry `index` of the table.
    pub fn set_entry(&mut self, index: usize, entry: PageTableEntry)
        requires
            old(self).wf(),
            index < 512,
        ensures
            final(self).wf(),
            final(self)@ == old(self)@.update(index as int, entry.0),
    {
        self.entries.set(index, entry);
        assert(self@ =~= old(self)@.update(index as int, entry.0));
    }
}

} // verus!
