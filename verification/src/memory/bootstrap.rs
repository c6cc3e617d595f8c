//! A bootstrap allocator used to initialize the memory management system
//! until the heap can be initialized. This is a simple first-free-fit
//! allocator with no ability to deallocate memory.

use vstd::prelude::*;

use super::addr::{align_up, align_up_spec, lemma_aligned_steps, lemma_block_sizes_are_pow2, PhysAddr};
use super::memmap::{aligned_regions, sorted_regions, MemoryRegion, MemoryRegionType};

verus! {

/// The index of the first region that holds `size` bytes, or the number of
/// regions if none does.
pub open spec fn first_fit(regions: Seq<MemoryRegion>, size: int) -> int
    decreases regions.len(),
{
    if regions.len() == 0 {
        0
    } else if regions[0].size >= size {
        0
    } else {
        1 + first_fit(regions.drop_first(), size)
    }
}

/// The first fit is the lowest index whose region is large enough.
pub proof fn lemma_first_fit(regions: Seq<MemoryRegion>, size: int)
    ensures
        0 <= first_fit(regions, size) <= regions.len(),
        first_fit(regions, size) < regions.len() ==> regions[first_fit(regions, size)].size >= size,
        forall|j: int| 0 <= j < first_fit(regions, size) ==> (#[trigger] regions[j]).size < size,
    decreases regions.len(),
{
    if regions.len() > 0 && regions[0].size < size {
        let rest = regions.drop_first();
        lemma_first_fit(rest, size);
        assert forall|j: int| 0 <= j < first_fit(regions, size) implies (#[trigger] regions[j]).size
            < size by {
            if j > 0 {
                assert(regions[j] == rest[j - 1]);
            }
        }
    }
}

/// The regions after `size` bytes, rounded up to whole pages, were taken from
/// the front of the first region that holds them; `None` if no region does.
pub open spec fn carved(regions: Seq<MemoryRegion>, size: int) -> Option<Seq<MemoryRegion>> {
    let rounded = align_up_spec(size, 4096);
    let i = first_fit(regions, rounded);
    if i < regions.len() {
        Some(
            regions.update(
                i,
                MemoryRegion {
                    base: PhysAddr((regions[i].base.0 + rounded) as u64),
                    size: (regions[i].size - rounded) as u64,
                    region_type: regions[i].region_type,
                },
            ),
        )
    } else {
        None
    }
}

/// Taking space from the front of a region keeps the regions in order and on
/// page boundaries, and keeps where each region ends.
pub proof fn lemma_carved_keeps_order(regions: Seq<MemoryRegion>, size: int)
    requires
        size >= 0,
        sorted_regions(regions),
        aligned_regions(regions),
        carved(regions, size).is_some(),
    ensures
        sorted_regions(carved(regions, size).unwrap()),
        aligned_regions(carved(regions, size).unwrap()),
        carved(regions, size).unwrap().len() == regions.len(),
        forall|i: int|
            0 <= i < regions.len() ==> (#[trigger] carved(regions, size).unwrap()[i]).end()
                == regions[i].end() && carved(regions, size).unwrap()[i].base.0
                >= regions[i].base.0,
{
    let rounded = align_up_spec(size, 4096);
    let k = first_fit(regions, rounded);
    let next = carved(regions, size).unwrap();
    lemma_first_fit(regions, rounded);
    lemma_aligned_steps(size, 4096);
    assert(regions[k].page_aligned());
    assert((regions[k].base.0 + rounded) % 4096 == 0) by (nonlinear_arith)
        requires
            regions[k].base.0 % 4096 == 0,
            rounded % 4096 == 0,
    ;
    assert((regions[k].size - rounded) % 4096 == 0) by (nonlinear_arith)
        requires
            regions[k].size % 4096 == 0,
            rounded % 4096 == 0,
    ;
    assert forall|i: int| 0 <= i < regions.len() implies (#[trigger] next[i]).end()
        == regions[i].end() && next[i].base.0 >= regions[i].base.0 && next[i].page_aligned() by {
        assert(regions[i].page_aligned());
    }
    assert forall|i: int, j: int| 0 <= i < j < next.len() implies (#[trigger] next[i]).end() <= (
    #[trigger] next[j]).base.0 by {
        assert(regions[i].end() <= regions[j].base.0);
    }
}

/// The allocator that is used before any other exists: it takes whole pages
/// from the front of the first free region that is large enough.
pub struct BootstrapAlloc {
    /// Free areas of memory that the allocator is allowed to use.
    pub memory_ranges: Vec<MemoryRegion>,
}

impl BootstrapAlloc {
    /// Create a new instance of the boot allocator.
    pub fn new(memory_ranges: Vec<MemoryRegion>) -> (r: Self)
        ensures
            r.memory_ranges == memory_ranges,
    {
        Self { memory_ranges }
    }

    /// Allocate `size` bytes, aligned up to 4 KiB: they are taken from the
    /// front of the first region that holds them. Returns where they start,
    /// or `None` if no region is large enough.
    pub fn allocate(&mut self, size: u64) -> (r: Option<PhysAddr>)
        requires
            forall|i: int|
                0 <= i < old(self).memory_ranges@.len() ==> (#[trigger] old(
                    self,
                ).memory_ranges@[i]).end() <= u64::MAX,
        ensures
            match r {
                Some(p) => {
                    let i = first_fit(old(self).memory_ranges@, align_up_spec(size as int, 4096));
                    &&& i < old(self).memory_ranges@.len()
                    &&& p == old(self).memory_ranges@[i].base
                    &&& Some(final(self).memory_ranges@) == carved(
                        old(self).memory_ranges@,
                        size as int,
                    )
                },
                None => {
                    &&& carved(old(self).memory_ranges@, size as int).is_none()
                    &&& final(self).memory_ranges@ == old(self).memory_ranges@
                },
            },
    {
        proof {
            lemma_block_sizes_are_pow2();
            lemma_aligned_steps(size as int, 4096);
            lemma_first_fit(self.memory_ranges@, align_up_spec(size as int, 4096));
        }
        if size > u64::MAX - 4095 {
            return None;
        }
        let rounded = align_up(size, 4096);
        let mut i: usize = 0;
        while i < self.memory_ranges.len()
            invariant
                i <= self.memory_ranges@.len(),
                self.memory_ranges == old(self).memory_ranges,
                forall|j: int| 0 <= j < i ==> (#[trigger] self.memory_ranges@[j]).size < rounded,
                rounded == align_up_spec(size as int, 4096),
                forall|i: int|
                    0 <= i < self.memory_ranges@.len() ==> (#[trigger] self.memory_ranges@[i]).end()
                        <= u64::MAX,
            decreases self.memory_ranges@.len() - i,
        {
            let range = self.memory_ranges[i];
            if range.size >= rounded {
                let addr = range.base;
                proof {
                    lemma_first_fit_is(self.memory_ranges@, rounded as int, i as int);
                    assert(range.end() <= u64::MAX);
                }
                self.memory_ranges.set(
                    i,
                    MemoryRegion {
                        base: range.base.offset(rounded),
                        size: range.size - rounded,
                        region_type: range.region_type,
                    },
                );
                return Some(addr);
            }
            i += 1;
        }
        proof {
            lemma_first_fit_is(self.memory_ranges@, rounded as int, self.memory_ranges@.len() as int);
        }
        None
    }
}

/// An index whose region is large enough, with none before it that is, is the
/// first fit; so is the number of regions if none is large enough.
pub proof fn lemma_first_fit_is(regions: Seq<MemoryRegion>, size: int, i: int)
    requires
        0 <= i <= regions.len(),
        forall|j: int| 0 <= j < i ==> (#[trigger] regions[j]).size < size,
        i < regions.len() ==> regions[i].size >= size,
    ensures
        first_fit(regions, size) == i,
{
    lemma_first_fit(regions, size);
    let k = first_fit(regions, size);
    if k < i {
        assert(regions[k].size < size);
    } else if k > i {
        assert(regions[i].size < size);
    }
}

} // verus!
