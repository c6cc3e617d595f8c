//! The frames of physical memory that hold page tables, as an array of
//! 64-bit words.

use vstd::prelude::*;

use super::addr::PhysAddr;

verus! {

/// The number of entries of one page table.
pub const ENTRY_COUNT: usize = 512;

/// A range of physical memory, frame by frame: each frame is 512 words of 64
/// bits.
#[derive(Debug)]
pub struct PhysicalMemory {
    base: u64,
    words: Vec<u64>,
}

impl PhysicalMemory {
    /// The address of the first frame.
    pub closed spec fn base_addr(&self) -> int {
        self.base as int
    }

    /// The address after the last frame.
    pub closed spec fn end_addr(&self) -> int {
        self.base + 8 * self.words@.len()
    }

    /// The memory is made of whole frames below 2^52.
    pub closed spec fn wf(&self) -> bool {
        &&& self.base % 4096 == 0
        &&& self.words@.len() % 512 == 0
        &&& self.base + 8 * self.words@.len() <= 0x10_0000_0000_0000
    }

    /// A frame starts at `addr`.
    pub open spec fn contains(&self, addr: int) -> bool {
        &&& addr % 4096 == 0
        &&& self.base_addr() <= addr
        &&& addr + 4096 <= self.end_addr()
    }

    /// Word `index` of the frame at `addr`.
    pub closed spec fn entry(&self, addr: int, index: int) -> u64 {
        self.words@[(addr - self.base) / 8 + index]
    }

    /// Where the words of a frame lie.
    proof fn lemma_slot(&self, addr: int)
        requires
            self.wf(),
            self.contains(addr),
        ensures
            (addr - self.base) / 8 == 512 * ((addr - self.base) / 4096),
            (addr - self.base) == 4096 * ((addr - self.base) / 4096),
            0 <= (addr - self.base) / 4096,
            512 * ((addr - self.base) / 4096) + 512 <= self.words@.len(),
    {
        let x = addr - self.base;
        assert(x % 4096 == 0) by {
            vstd::arithmetic::div_mod::lemma_sub_mod_noop(addr, self.base as int, 4096);
        }
    }

    /// The bounds of a well-formed memory are page-aligned and below 2^52.
    pub proof fn lemma_bounds(&self)
        requires
            self.wf(),
        ensures
            self.base_addr() % 4096 == 0,
            self.end_addr() % 4096 == 0,
            0 <= self.base_addr() <= self.end_addr() <= 0x10_0000_0000_0000,
    {
    }

    /// A memory of `frames` frames from `base` on, all zero.
    pub fn new(base: PhysAddr, frames: usize) -> (r: Self)
        requires
            base.0 % 4096 == 0,
            base.0 + 4096 * frames <= 0x10_0000_0000_0000,
            512 * frames <= usize::MAX,
        ensures
            r.wf(),
            r.base_addr() == base.0,
            r.end_addr() == base.0 + 4096 * frames,
            forall|addr: int, index: int|
                r.contains(addr) && 0 <= index < 512 ==> #[trigger] r.entry(addr, index) == 0,
    {
        let mut words: Vec<u64> = Vec::new();
        words.resize(frames * ENTRY_COUNT, 0);
        Self { base: base.0, words }
    }

    /// Whether a frame starts at `addr`.
    pub fn holds(&self, addr: PhysAddr) -> (r: bool)
        requires
            self.wf(),
        ensures
            r == self.contains(addr.0 as int),
    {
        addr.0 % 4096 == 0 && self.base <= addr.0 && addr.0 - self.base < 8 * (
        self.words.len() as u64)
    }

    /// Reads word `index` of the frame at `addr`.
    pub fn read(&self, addr: PhysAddr, index: usize) -> (r: u64)
        requires
            self.wf(),
            self.contains(addr.0 as int),
            index < 512,
        ensures
            r == self.entry(addr.0 as int, index as int),
    {
        proof {
            self.lemma_slot(addr.0 as int);
        }
        let len = self.words.len();
        assert((addr.0 - self.base) / 8 + index < len);
        let slot = ((addr.0 - self.base) / 8) as usize + index;
        self.words[slot]
    }

    /// Writes word `index` of the frame at `addr`; every other word stays.
    pub fn write(&mut self, addr: PhysAddr, index: usize, value: u64)
        requires
            old(self).wf(),
            old(self).contains(addr.0 as int),
            index < 512,
        ensures
            final(self).wf(),
            final(self).base_addr() == old(self).base_addr(),
            final(self).end_addr() == old(self).end_addr(),
            final(self).entry(addr.0 as int, index as int) == value,
            forall|a: int, i: int|
                old(self).contains(a) && 0 <= i < 512 && !(a == addr.0 && i == index)
                    ==> #[trigger] final(self).entry(a, i) == old(self).entry(a, i),
    {
        proof {
            self.lemma_slot(addr.0 as int);
        }
        let len = self.words.len();
        assert((addr.0 - self.base) / 8 + index < len);
        let slot = ((addr.0 - self.base) / 8) as usize + index;
        self.words.set(slot, value);
        proof {
            assert forall|a: int, i: int|
                old(self).contains(a) && 0 <= i < 512 && !(a == addr.0 && i
                    == index) implies #[trigger] self.entry(a, i) == old(self).entry(a, i) by {
                old(self).lemma_slot(a);
                assert((a - self.base) / 8 + i != slot);
            }
        }
    }

    /// Sets every word of the frame at `addr` to zero; every other frame
    /// stays.
    pub fn zero_frame(&mut self, addr: PhysAddr)
        requires
            old(self).wf(),
            old(self).contains(addr.0 as int),
        ensures
            final(self).wf(),
            final(self).base_addr() == old(self).base_addr(),
            final(self).end_addr() == old(self).end_addr(),
            forall|i: int| 0 <= i < 512 ==> #[trigger] final(self).entry(addr.0 as int, i) == 0,
            forall|a: int, i: int|
                old(self).contains(a) && 0 <= i < 512 && a != addr.0
                    ==> #[trigger] final(self).entry(a, i) == old(self).entry(a, i),
    {
        let mut index: usize = 0;
        while index < ENTRY_COUNT
            invariant
                index <= 512,
                self.wf(),
                self.contains(addr.0 as int),
                self.base_addr() == old(self).base_addr(),
                self.end_addr() == old(self).end_addr(),
                forall|i: int| 0 <= i < index ==> #[trigger] self.entry(addr.0 as int, i) == 0,
                forall|a: int, i: int|
                    old(self).contains(a) && 0 <= i < 512 && a != addr.0 ==> #[trigger] self.entry(
                        a,
                        i,
                    ) == old(self).entry(a, i),
            decreases 512 - index,
        {
            self.write(addr, index, 0);
            index += 1;
        }
    }
}

} // verus!
