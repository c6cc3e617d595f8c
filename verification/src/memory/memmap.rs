//! The memory map handed over at boot, and the free regions in it.

use vstd::prelude::*;

use super::addr::{align_down, align_up, lemma_aligned_steps, lemma_block_sizes_are_pow2, PhysAddr};

verus! {

/// What a range of the memory map handed over at boot is used for.
#[derive(Debug, Clone, Copy, PartialEq, Eq, Structural)]
pub enum EntryType {
    /// The memory is freely usable.
    Usable,
    /// The memory is permanently reserved.
    Reserved,
    /// The memory holds ACPI tables and can be reclaimed after they were read.
    AcpiReclaimable,
    /// The memory is reserved by ACPI for good.
    AcpiNvs,
    /// The memory is damaged.
    BadMemory,
    /// The memory is used by the boot loader and can be reclaimed later.
    BootloaderReclaimable,
    /// The memory holds the kernel and its modules.
    ExecutableAndModules,
    /// The memory is the frame buffer.
    Framebuffer,
}

/// One entry of the memory map handed over at boot.
#[derive(Debug, Clone, Copy, PartialEq, Eq, Structural)]
pub struct MemoryMapEntry {
    /// The first physical address of the range.
    pub base: u64,
    /// The length of the range in bytes.
    pub length: u64,
    /// What the range is used for.
    pub entry_type: EntryType,
}

/// The kind of a region of memory.
#[derive(Debug, Clone, Copy, PartialEq, Eq, Structural)]
pub enum MemoryRegionType {
    /// The region is free.
    Free,
}

/// An in-memory representation of a region in memory.
#[derive(Debug, Clone, Copy, PartialEq, Eq, Structural)]
pub struct MemoryRegion {
    /// The starting address of the region.
    pub base: PhysAddr,
    /// The region's size in bytes.
    pub size: u64,
    /// The kind of the region.
    pub region_type: MemoryRegionType,
}

impl MemoryRegion {
    /// The address after the last byte of the region.
    pub open spec fn end(&self) -> int {
        self.base.0 + self.size
    }

    /// The region starts and ends on a page boundary and ends inside the
    /// address space.
    pub open spec fn page_aligned(&self) -> bool {
        &&& self.base.0 % 4096 == 0
        &&& self.size % 4096 == 0
        &&& self.base.0 + self.size <= u64::MAX
    }
}

/// Where the free region of a memory map entry starts and ends: the whole
/// pages of a usable entry, if it holds any.
pub open spec fn entry_bounds(e: MemoryMapEntry) -> Option<(int, int)> {
    let raw_end = if e.base + e.length > u64::MAX {
        u64::MAX as int
    } else {
        e.base + e.length
    };
    let start = super::addr::align_up_spec(e.base as int, 4096);
    let end = super::addr::align_down_spec(raw_end, 4096);
    if e.entry_type == EntryType::Usable && start < end {
        Some((start, end))
    } else {
        None
    }
}

/// The free region of a memory map entry, if it has one.
pub open spec fn entry_region(e: MemoryMapEntry) -> Option<MemoryRegion> {
    match entry_bounds(e) {
        Some((start, end)) => Some(
            MemoryRegion {
                base: PhysAddr(start as u64),
                size: (end - start) as u64,
                region_type: MemoryRegionType::Free,
            },
        ),
        None => None,
    }
}

/// The free regions of a memory map, in the order of its entries: entries
/// that are not usable or hold no whole page give none.
pub open spec fn normalize(entries: Seq<MemoryMapEntry>) -> Seq<MemoryRegion>
    decreases entries.len(),
{
    if entries.len() == 0 {
        Seq::empty()
    } else {
        match entry_region(entries[0]) {
            Some(region) => seq![region] + normalize(entries.drop_first()),
            None => normalize(entries.drop_first()),
        }
    }
}

/// The free region of one entry of the memory map, if it has one.
pub fn region_of_entry(entry: &MemoryMapEntry) -> (r: Option<MemoryRegion>)
    ensures
        r == entry_region(*entry),
        match r {
            Some(region) => {
                &&& region.page_aligned()
                &&& region.size > 0
                &&& entry.base <= region.base.0
                &&& region.end() <= entry.base + entry.length
            },
            None => true,
        },
{
    proof {
        lemma_block_sizes_are_pow2();
    }
    if entry.entry_type != EntryType::Usable {
        return None;
    }
    let raw_end = if entry.length > u64::MAX - entry.base {
        u64::MAX
    } else {
        entry.base + entry.length
    };
    let end = align_down(raw_end, 4096);
    proof {
        lemma_aligned_steps(entry.base as int, 4096);
    }
    if entry.base >= end {
        return None;
    }
    let start = align_up(entry.base, 4096);
    if start >= end {
        return None;
    }
    Some(MemoryRegion { base: PhysAddr::new(start), size: end - start, region_type: MemoryRegionType::Free })
}

/// Of a usable entry that starts and ends on page boundaries, the free region
/// is the entry itself; an empty one has none.
pub proof fn lemma_aligned_entry_is_kept(e: MemoryMapEntry)
    requires
        e.base % 4096 == 0,
        e.length % 4096 == 0,
        e.base + e.length <= u64::MAX,
    ensures
        e.entry_type == EntryType::Usable && e.length > 0 ==> entry_region(e) == Some(
            MemoryRegion { base: PhysAddr(e.base), size: e.length, region_type: MemoryRegionType::Free },
        ),
        e.entry_type != EntryType::Usable || e.length == 0 ==> entry_region(e).is_none(),
{
    lemma_aligned_steps(e.base as int, 4096);
    lemma_aligned_steps(e.base + e.length, 4096);
    assert((e.base + e.length) % 4096 == 0) by (nonlinear_arith)
        requires
            e.base % 4096 == 0,
            e.length % 4096 == 0,
    ;
}

/// The map whose entries are the given regions, each marked usable.
pub open spec fn regions_as_entries(regions: Seq<MemoryRegion>) -> Seq<MemoryMapEntry> {
    Seq::new(
        regions.len(),
        |i: int|
            MemoryMapEntry {
                base: regions[i].base.0,
                length: regions[i].size,
                entry_type: EntryType::Usable,
            },
    )
}

/// Every region that comes out of a memory map starts and ends on a page
/// boundary and is not empty.
pub proof fn lemma_normalize_aligned(entries: Seq<MemoryMapEntry>)
    ensures
        forall|i: int|
            0 <= i < normalize(entries).len() ==> (#[trigger] normalize(entries)[i]).page_aligned()
                && normalize(entries)[i].size > 0,
        normalize(entries).len() <= entries.len(),
    decreases entries.len(),
{
    if entries.len() > 0 {
        lemma_normalize_aligned(entries.drop_first());
        lemma_aligned_steps(entries[0].base as int, 4096);
        let raw_end = if entries[0].base + entries[0].length > u64::MAX {
            u64::MAX as int
        } else {
            entries[0].base + entries[0].length
        };
        lemma_aligned_steps(raw_end, 4096);
    }
}

/// A map of usable entries that start and end on page boundaries and are not
/// empty comes out of the normalizer as it went in.
pub proof fn lemma_normalize_identity(regions: Seq<MemoryRegion>)
    requires
        forall|i: int|
            0 <= i < regions.len() ==> (#[trigger] regions[i]).page_aligned() && regions[i].size
                > 0 && regions[i].region_type == MemoryRegionType::Free,
    ensures
        normalize(regions_as_entries(regions)) == regions,
    decreases regions.len(),
{
    let entries = regions_as_entries(regions);
    if regions.len() > 0 {
        let rest = regions.drop_first();
        assert(entries.drop_first() =~= regions_as_entries(rest));
        assert forall|i: int| 0 <= i < rest.len() implies (#[trigger] rest[i]).page_aligned()
            && rest[i].size > 0 && rest[i].region_type == MemoryRegionType::Free by {
            assert(rest[i] == regions[i + 1]);
        }
        lemma_normalize_identity(rest);
        assert(regions[0].page_aligned());
        lemma_aligned_entry_is_kept(entries[0]);
        assert(entry_region(entries[0]) == Some(regions[0]));
        assert(seq![regions[0]] + rest =~= regions);
    } else {
        assert(normalize(entries) =~= regions);
    }
}

/// Normalizing what the normalizer gave changes nothing.
pub proof fn lemma_normalize_idempotent(entries: Seq<MemoryMapEntry>)
    ensures
        normalize(regions_as_entries(normalize(entries))) == normalize(entries),
{
    lemma_normalize_aligned(entries);
    lemma_normalize_free(entries);
    lemma_normalize_identity(normalize(entries));
}

/// Every region that comes out of a memory map is marked free.
pub proof fn lemma_normalize_free(entries: Seq<MemoryMapEntry>)
    ensures
        forall|i: int|
            0 <= i < normalize(entries).len() ==> (#[trigger] normalize(entries)[i]).region_type
                == MemoryRegionType::Free,
    decreases entries.len(),
{
    if entries.len() > 0 {
        lemma_normalize_free(entries.drop_first());
    }
}

/// Each region ends before the ones after it start.
pub open spec fn sorted_regions(regions: Seq<MemoryRegion>) -> bool {
    forall|i: int, j: int|
        0 <= i < j < regions.len() ==> (#[trigger] regions[i]).end() <= (#[trigger] regions[j]).base.0
}

/// Every region starts and ends on a page boundary.
pub open spec fn aligned_regions(regions: Seq<MemoryRegion>) -> bool {
    forall|i: int| 0 <= i < regions.len() ==> (#[trigger] regions[i]).page_aligned()
}

/// The bytes that lie in one of the regions.
pub open spec fn regions_bytes(regions: Seq<MemoryRegion>) -> Set<int> {
    Set::new(
        |x: int|
            exists|i: int|
                0 <= i < regions.len() && (#[trigger] regions[i]).base.0 <= x < regions[i].end(),
    )
}

/// The sizes of the regions, added up.
pub open spec fn total_size(regions: Seq<MemoryRegion>) -> int
    decreases regions.len(),
{
    if regions.len() == 0 {
        0
    } else {
        total_size(regions.drop_last()) + regions.last().size
    }
}

/// Walks a memory map and hands out its free regions one by one.
pub struct MemoryRegionIter<'a> {
    entries: &'a Vec<MemoryMapEntry>,
    pos: usize,
}

impl<'a> MemoryRegionIter<'a> {
    /// The regions that are still to come.
    pub closed spec fn view(&self) -> Seq<MemoryRegion> {
        normalize(self.entries@.subrange(self.pos as int, self.entries@.len() as int))
    }

    /// The cursor lies inside the map.
    pub closed spec fn wf(&self) -> bool {
        self.pos <= self.entries@.len()
    }

    /// An iterator over the free regions of `entries`.
    pub fn new(entries: &'a Vec<MemoryMapEntry>) -> (r: Self)
        ensures
            r.wf(),
            r@ == normalize(entries@),
    {
        proof {
            assert(entries@.subrange(0, entries@.len() as int) =~= entries@);
        }
        Self { entries, pos: 0 }
    }

    /// The next free region of the map, if one is left.
    pub fn next(&mut self) -> (r: Option<MemoryRegion>)
        requires
            old(self).wf(),
        ensures
            final(self).wf(),
            match r {
                Some(region) => old(self)@.len() > 0 && region == old(self)@[0] && final(self)@
                    == old(self)@.drop_first(),
                None => old(self)@.len() == 0 && final(self)@.len() == 0,
            },
    {
        while self.pos < self.entries.len()
            invariant
                self.wf(),
                self.entries == old(self).entries,
                self@ == old(self)@,
            decreases self.entries@.len() - self.pos,
        {
            let ghost rest = self.entries@.subrange(self.pos as int, self.entries@.len() as int);
            let found = region_of_entry(&self.entries[self.pos]);
            self.pos += 1;
            proof {
                assert(rest.drop_first() =~= self.entries@.subrange(
                    self.pos as int,
                    self.entries@.len() as int,
                ));
                assert(rest[0] == self.entries@[self.pos - 1]);
            }
            if let Some(region) = found {
                proof {
                    assert((seq![region] + normalize(rest.drop_first())).drop_first() =~= normalize(
                        rest.drop_first(),
                    ));
                }
                return Some(region);
            }
        }
        proof {
            assert(self.entries@.subrange(self.pos as int, self.entries@.len() as int).len() == 0);
        }
        None
    }
}

} // verus!
