//! Physical frame management.

use vstd::prelude::*;
use vstd::arithmetic::div_mod::{
    lemma_fundamental_div_mod, lemma_fundamental_div_mod_converse,
};

use super::addr::{align_up_spec, is_power_of_two, lemma_block_sizes_are_pow2, PhysAddr};
use super::bitmap::{count_true, lemma_count_true_bound, lemma_count_true_update, lemma_count_true_zero, Bitmap};
use super::bootstrap::{carved, lemma_carved_keeps_order, BootstrapAlloc};
use super::memmap::{
    aligned_regions, lemma_normalize_aligned, normalize, regions_bytes, sorted_regions,
    total_size, EntryType, MemoryMapEntry, MemoryRegion, MemoryRegionIter,
};

verus! {

/// The number of size classes of the buddy allocator.
pub const ORDER_COUNT: usize = 10;

/// The size in bytes of a block of the given size class: 4 KiB doubled
/// `order` times, up to 2 MiB.
pub open spec fn block_size(order: int) -> int {
    if order <= 0 {
        0x1000
    } else if order == 1 {
        0x2000
    } else if order == 2 {
        0x4000
    } else if order == 3 {
        0x8000
    } else if order == 4 {
        0x1_0000
    } else if order == 5 {
        0x2_0000
    } else if order == 6 {
        0x4_0000
    } else if order == 7 {
        0x8_0000
    } else if order == 8 {
        0x10_0000
    } else {
        0x20_0000
    }
}

/// The number of 4 KiB pages in a block of the given size class.
pub open spec fn block_pages(order: int) -> int {
    block_size(order) / 0x1000
}

/// The other half of the pair of blocks of class `order` that makes up one
/// block of the next class.
pub open spec fn buddy_of(addr: int, order: int) -> int {
    if addr % (2 * block_size(order)) == 0 {
        addr + block_size(order)
    } else {
        addr - block_size(order)
    }
}

/// Two blocks share no byte.
pub open spec fn blocks_disjoint(o1: int, a1: int, o2: int, a2: int) -> bool {
    a1 + block_size(o1) <= a2 || a2 + block_size(o2) <= a1
}

/// The size in bytes of a block of the given size class.
pub fn buddy_size(order: usize) -> (r: u64)
    requires
        order < ORDER_COUNT,
    ensures
        r == block_size(order as int),
        is_power_of_two(r),
        is_power_of_two((2 * r) as u64),
{
    proof {
        lemma_block_sizes_are_pow2();
    }
    let sizes: [u64; 10] = [
        0x1000,
        0x2000,
        0x4000,
        0x8000,
        0x1_0000,
        0x2_0000,
        0x4_0000,
        0x8_0000,
        0x10_0000,
        0x20_0000,
    ];
    sizes[order]
}

/// An aligned address at or above `base` is found again from its index
/// relative to `base`.
pub proof fn lemma_index_roundtrip(base: int, size: int, addr: int)
    requires
        0 <= base <= addr,
        size > 0,
        addr % size == 0,
    ensures
        (addr - base) / size >= 0,
        align_up_spec(base, size) + ((addr - base) / size) * size == addr,
{
    lemma_fundamental_div_mod(base, size);
    lemma_fundamental_div_mod(addr, size);
    let q = base / size;
    let r = base % size;
    let k = addr / size;
    assert(addr == size * k);
    assert(base == size * q + r);
    assert(k >= q) by (nonlinear_arith)
        requires
            size * k >= size * q + r,
            r >= 0,
            size > 0,
    ;
    if r == 0 {
        assert(addr - base == (k - q) * size + 0) by (nonlinear_arith)
            requires
                addr == size * k,
                base == size * q,
        ;
        lemma_fundamental_div_mod_converse(addr - base, size, k - q, 0);
    } else {
        assert(k >= q + 1) by (nonlinear_arith)
            requires
                size * k >= size * q + r,
                r > 0,
                size > 0,
        ;
        assert(addr - base == (k - q - 1) * size + (size - r)) by (nonlinear_arith)
            requires
                addr == size * k,
                base == size * q + r,
        ;
        lemma_fundamental_div_mod_converse(addr - base, size, k - q - 1, size - r);
        assert((k - q - 1) * size + (q + 1) * size == k * size) by (nonlinear_arith);
        assert(size * q + size == (q + 1) * size) by (nonlinear_arith);
        assert(size * k == k * size) by (nonlinear_arith);
    }
    assert(size * q == q * size) by (nonlinear_arith);
    assert(size * k == k * size) by (nonlinear_arith);
    assert((k - q) * size + q * size == k * size) by (nonlinear_arith);
}

/// The address of index `idx` relative to `base` is aligned, not below
/// `base`, and has that index.
pub proof fn lemma_index_inverse(base: int, size: int, idx: int)
    requires
        0 <= base,
        size > 0,
        0 <= idx,
    ensures
        (align_up_spec(base, size) + idx * size) % size == 0,
        align_up_spec(base, size) + idx * size >= base,
        (align_up_spec(base, size) + idx * size - base) / size == idx,
{
    lemma_fundamental_div_mod(base, size);
    let q = base / size;
    let r = base % size;
    let a = align_up_spec(base, size) + idx * size;
    assert(idx * size >= 0) by (nonlinear_arith)
        requires
            idx >= 0,
            size > 0,
    ;
    if r == 0 {
        assert(a == (q + idx) * size + 0) by (nonlinear_arith)
            requires
                a == size * q + idx * size,
        ;
        lemma_fundamental_div_mod_converse(a, size, q + idx, 0);
        assert(a - base == idx * size + 0);
        lemma_fundamental_div_mod_converse(a - base, size, idx, 0);
    } else {
        assert(a == (q + 1 + idx) * size + 0) by (nonlinear_arith)
            requires
                a == size * q + size + idx * size,
        ;
        lemma_fundamental_div_mod_converse(a, size, q + 1 + idx, 0);
        assert(a - base == idx * size + (size - r));
        lemma_fundamental_div_mod_converse(a - base, size, idx, size - r);
    }
}

/// Division by a positive number keeps the order.
pub proof fn lemma_div_monotone(x: int, y: int, d: int)
    requires
        x <= y,
        d > 0,
    ensures
        x / d <= y / d,
{
    vstd::arithmetic::div_mod::lemma_div_is_ordered(x, y, d);
}

/// A block that ends at or before `end` has an index below the number of
/// whole blocks between `base` and `end`.
pub proof fn lemma_index_bound(base: int, end: int, size: int, addr: int)
    requires
        0 <= base <= addr,
        size > 0,
        addr + size <= end,
    ensures
        0 <= (addr - base) / size < (end - base) / size,
{
    let x = addr - base;
    lemma_fundamental_div_mod(x, size);
    let q = x / size;
    assert(q >= 0) by (nonlinear_arith)
        requires
            x == size * q + x % size,
            0 <= x % size < size,
            x >= 0,
            size > 0,
    ;
    assert(x + size == (q + 1) * size + x % size) by (nonlinear_arith)
        requires
            x == size * q + x % size,
    ;
    lemma_fundamental_div_mod_converse(x + size, size, q + 1, x % size);
    lemma_div_monotone(x + size, end - base, size);
}


/// What divides by twice a size divides by the size.
pub proof fn lemma_mod_half(a: int, s: int)
    requires
        s > 0,
        a % (2 * s) == 0,
    ensures
        a % s == 0,
{
    lemma_fundamental_div_mod(a, 2 * s);
    let q = a / (2 * s);
    assert(a == (2 * q) * s + 0) by (nonlinear_arith)
        requires
            a == (2 * s) * q + 0,
    ;
    lemma_fundamental_div_mod_converse(a, s, 2 * q, 0);
}

/// A multiple of a size is a multiple of twice the size or lies one size
/// above such a multiple.
pub proof fn lemma_half_aligned(a: int, s: int)
    requires
        s > 0,
        a >= 0,
        a % s == 0,
    ensures
        a % (2 * s) == 0 || a % (2 * s) == s,
        a % (2 * s) == s ==> a >= s && (a - s) % (2 * s) == 0,
        (a + s) % s == 0,
        a % (2 * s) == 0 ==> (a + s) % (2 * s) == s,
{
    lemma_fundamental_div_mod(a, s);
    lemma_fundamental_div_mod(a, 2 * s);
    let k = a / s;
    let q = a / (2 * s);
    let r = a % (2 * s);
    assert(a + s == (k + 1) * s + 0) by (nonlinear_arith)
        requires
            a == s * k,
    ;
    lemma_fundamental_div_mod_converse(a + s, s, k + 1, 0);
    // r is a multiple of s below 2 s
    assert(r == (k - 2 * q) * s + 0) by (nonlinear_arith)
        requires
            a == s * k,
            a == (2 * s) * q + r,
    ;
    assert(k - 2 * q == 0 || k - 2 * q == 1) by (nonlinear_arith)
        requires
            r == (k - 2 * q) * s,
            0 <= r < 2 * s,
            s > 0,
    ;
    if k - 2 * q == 1 {
        assert(r == s) by (nonlinear_arith)
            requires
                r == (k - 2 * q) * s,
                k - 2 * q == 1,
        ;
        assert(a - s == (2 * s) * q);
        assert(q >= 0) by (nonlinear_arith)
            requires
                a == (2 * s) * q + r,
                r < 2 * s,
                a >= 0,
                s > 0,
        ;
        assert(a - s == q * (2 * s) + 0) by (nonlinear_arith)
            requires
                a - s == (2 * s) * q,
        ;
        lemma_fundamental_div_mod_converse(a - s, 2 * s, q, 0);
    } else {
        assert(r == 0) by (nonlinear_arith)
            requires
                r == (k - 2 * q) * s,
                k - 2 * q == 0,
        ;
        assert(a + s == q * (2 * s) + s) by (nonlinear_arith)
            requires
                a == (2 * s) * q,
        ;
        lemma_fundamental_div_mod_converse(a + s, 2 * s, q, s);
    }
}

/// A block's address is aligned to every smaller class too.
pub proof fn lemma_aligned_lower(addr: int, hi: int, lo: int)
    requires
        0 <= lo <= hi < 10,
        addr % block_size(hi) == 0,
    ensures
        addr % block_size(lo) == 0,
    decreases hi - lo,
{
    if lo < hi {
        assert(block_size(hi) == 2 * block_size(hi - 1));
        lemma_mod_half(addr, block_size(hi - 1));
        lemma_aligned_lower(addr, hi - 1, lo);
    }
}

/// The bytes of the block of class `order` at `addr`.
pub open spec fn block_bytes(order: int, addr: int) -> Set<int> {
    Set::new(|x: int| addr <= x < addr + block_size(order))
}

/// What the blocks marked free become when the block of class `order` at
/// `addr` is returned: while the block's buddy is marked free and the block
/// is below the largest class, the two are joined into the block of the next
/// class; the block that is left is marked free.
pub open spec fn coalesce(free: Set<(int, int)>, order: int, addr: int) -> Set<(int, int)>
    decreases 10 - order,
{
    if 0 <= order < 9 && free.contains((order, buddy_of(addr, order))) {
        let buddy = buddy_of(addr, order);
        coalesce(
            free.remove((order, buddy)),
            order + 1,
            if addr < buddy {
                addr
            } else {
                buddy
            },
        )
    } else {
        free.insert((order, addr))
    }
}

/// A chunk of `chunk_size` bytes at `addr` can start with a block of class
/// `order`.
pub open spec fn block_fits(addr: int, chunk_size: int, order: int) -> bool {
    block_size(order) <= chunk_size && addr % block_size(order) == 0
}


/// The number of bytes that the description of one free region takes.
pub const REGION_DESCRIPTOR_SIZE: u64 = 16;

/// Why the frame allocator could not be made from a memory map.
#[derive(Debug, Clone, Copy, PartialEq, Eq, Structural)]
pub enum InitError {
    /// No usable entry holds the descriptions of the free regions.
    NoMetadataRegion,
    /// The map has no free page.
    NoUsableMemory,
    /// The free regions are not in ascending order, or overlap.
    UnsortedMemoryMap,
    /// The managed range has more pages than a bitmap can index.
    RangeTooLarge,
    /// No free region holds the bitmap of some size class.
    OutOfBootstrapMemory,
}

/// The number of bytes set aside for the descriptions of the free regions of
/// a map of `entries` entries.
pub open spec fn descriptor_space(entries: int) -> int {
    align_up_spec(REGION_DESCRIPTOR_SIZE * entries, 4096)
}

/// The entry is usable and `size` bytes can be taken from its front.
pub open spec fn suitable(e: MemoryMapEntry, size: int) -> bool {
    e.entry_type == EntryType::Usable && e.length >= size && e.base + size <= u64::MAX
}

/// The index of the first entry that is suitable for `size` bytes, or the
/// number of entries if none is.
pub open spec fn first_suitable(entries: Seq<MemoryMapEntry>, size: int) -> int
    decreases entries.len(),
{
    if entries.len() == 0 {
        0
    } else if suitable(entries[0], size) {
        0
    } else {
        1 + first_suitable(entries.drop_first(), size)
    }
}

/// An index whose entry is suitable, with none before it that is, is the
/// first suitable one; so is the number of entries if none is suitable.
pub proof fn lemma_first_suitable_is(entries: Seq<MemoryMapEntry>, size: int, i: int)
    requires
        0 <= i <= entries.len(),
        forall|j: int| 0 <= j < i ==> !suitable(#[trigger] entries[j], size),
        i < entries.len() ==> suitable(entries[i], size),
    ensures
        first_suitable(entries, size) == i,
    decreases entries.len(),
{
    if entries.len() > 0 && i > 0 {
        let rest = entries.drop_first();
        assert(!suitable(entries[0], size));
        assert forall|j: int| 0 <= j < i - 1 implies !suitable(#[trigger] rest[j], size) by {
            assert(rest[j] == entries[j + 1]);
        }
        lemma_first_suitable_is(rest, size, i - 1);
    }
}

/// The memory map after the space for the descriptions of its free regions
/// was taken from the front of the first suitable entry; `None` if no entry
/// is suitable.
pub open spec fn reserved_entries(entries: Seq<MemoryMapEntry>) -> Option<Seq<MemoryMapEntry>> {
    let size = descriptor_space(entries.len() as int);
    let i = first_suitable(entries, size);
    if i < entries.len() {
        Some(
            entries.update(
                i,
                MemoryMapEntry {
                    base: (entries[i].base + size) as u64,
                    length: (entries[i].length - size) as u64,
                    entry_type: entries[i].entry_type,
                },
            ),
        )
    } else {
        None
    }
}

/// The number of bytes taken for the bitmap of class `order` of a managed
/// range of `span` bytes.
pub open spec fn bitmap_bytes(span: int, order: int) -> int {
    Bitmap::blocks_for(span / block_size(order)) * 8
}

/// The free regions after the bitmaps of the classes from `order` up were
/// taken from them, one class after the other.
pub open spec fn carve_bitmaps(regions: Seq<MemoryRegion>, span: int, order: int) -> Result<
    Seq<MemoryRegion>,
    InitError,
>
    decreases 10 - order,
{
    if order >= 10 || order < 0 {
        Ok(regions)
    } else if span / block_size(order) + 64 > usize::MAX {
        Err(InitError::RangeTooLarge)
    } else if bitmap_bytes(span, order) == 0 {
        carve_bitmaps(regions, span, order + 1)
    } else {
        match carved(regions, bitmap_bytes(span, order)) {
            Some(next) => carve_bitmaps(next, span, order + 1),
            None => Err(InitError::OutOfBootstrapMemory),
        }
    }
}

/// The free regions that a frame allocator made from the memory map starts
/// with, or why none can be made: the space for the descriptions of the
/// regions is taken from the first suitable entry; the free regions of what
/// is left must exist and be in ascending order; the bitmaps of the ten size
/// classes are taken from them.
pub open spec fn boot_regions(entries: Seq<MemoryMapEntry>) -> Result<Seq<MemoryRegion>, InitError> {
    match reserved_entries(entries) {
        None => Err(InitError::NoMetadataRegion),
        Some(left) => {
            let regions = normalize(left);
            if regions.len() == 0 {
                Err(InitError::NoUsableMemory)
            } else if !sorted_regions(regions) {
                Err(InitError::UnsortedMemoryMap)
            } else {
                carve_bitmaps(regions, regions.last().end() - regions[0].base.0, 0)
            }
        },
    }
}

/// Takes the space for the descriptions of the free regions from the front of
/// the first suitable entry of the map. Returns whether there was one.
pub fn reserve_descriptor_space(mem_map: &mut Vec<MemoryMapEntry>) -> (ok: bool)
    ensures
        ok == reserved_entries(old(mem_map)@).is_some(),
        ok ==> Some(final(mem_map)@) == reserved_entries(old(mem_map)@),
        !ok ==> final(mem_map)@ == old(mem_map)@,
{
    let n = mem_map.len();
    proof {
        lemma_block_sizes_are_pow2();
        super::addr::lemma_aligned_steps(REGION_DESCRIPTOR_SIZE * n, 4096);
    }
    if n as u64 > 0x0fff_ffff_ffff_ff00 {
        proof {
            assert forall|j: int| 0 <= j < n implies !suitable(
                #[trigger] mem_map@[j],
                descriptor_space(n as int),
            ) by {}
            lemma_first_suitable_is(mem_map@, descriptor_space(n as int), n as int);
        }
        return false;
    }
    let requested_size = super::addr::align_up(REGION_DESCRIPTOR_SIZE * (n as u64), 4096);
    let mut i: usize = 0;
    while i < n
        invariant
            i <= n,
            n == mem_map@.len(),
            mem_map@ == old(mem_map)@,
            requested_size == descriptor_space(n as int),
            forall|j: int| 0 <= j < i ==> !suitable(#[trigger] mem_map@[j], requested_size as int),
        decreases n - i,
    {
        let entry = mem_map[i];
        if entry.entry_type == EntryType::Usable && entry.length >= requested_size && entry.base
            <= u64::MAX - requested_size {
            proof {
                lemma_first_suitable_is(mem_map@, requested_size as int, i as int);
            }
            mem_map.set(
                i,
                MemoryMapEntry {
                    base: entry.base + requested_size,
                    length: entry.length - requested_size,
                    entry_type: entry.entry_type,
                },
            );
            return true;
        }
        i += 1;
    }
    proof {
        lemma_first_suitable_is(mem_map@, requested_size as int, n as int);
    }
    false
}

/// The free regions of a memory map, in the order of its entries.
pub fn collect_regions(mem_map: &Vec<MemoryMapEntry>) -> (r: Vec<MemoryRegion>)
    ensures
        r@ == normalize(mem_map@),
{
    let mut iter = MemoryRegionIter::new(mem_map);
    let mut regions: Vec<MemoryRegion> = Vec::new();
    loop
        invariant
            iter.wf(),
            regions@ + iter@ == normalize(mem_map@),
        decreases iter@.len(),
    {
        let ghost before = iter@;
        match iter.next() {
            Some(region) => {
                regions.push(region);
                proof {
                    assert(regions@ + iter@ =~= regions@.drop_last() + before);
                }
            },
            None => {
                proof {
                    assert(regions@ + iter@ =~= regions@);
                }
                return regions;
            },
        }
    }
}

/// Whether each region ends before the next one starts.
pub fn regions_in_order(regions: &Vec<MemoryRegion>) -> (r: bool)
    requires
        aligned_regions(regions@),
    ensures
        r == sorted_regions(regions@),
{
    let mut i: usize = 1;
    while i < regions.len()
        invariant
            1 <= i,
            aligned_regions(regions@),
            forall|a: int, b: int|
                0 <= a < b < i && b < regions@.len() ==> (#[trigger] regions@[a]).end() <= (
                #[trigger] regions@[b]).base.0,
        decreases regions@.len() - i,
    {
        let prev = regions[i - 1];
        let cur = regions[i];
        assert(prev.page_aligned());
        if prev.base.0 + prev.size > cur.base.0 {
            return false;
        }
        proof {
            assert forall|a: int, b: int| 0 <= a < b < i + 1 && b < regions@.len() implies (
            #[trigger] regions@[a]).end() <= (#[trigger] regions@[b]).base.0 by {
                if b == i as int && a < i - 1 {
                    assert(regions@[a].end() <= regions@[i - 1].base.0);
                }
            }
        }
        i += 1;
    }
    true
}

/// Makes the bitmap of class `order` for a managed range of `span` bytes,
/// all clear, and takes the space that it needs from the free regions.
pub fn make_bitmap(bootstrap: &mut BootstrapAlloc, span: u64, order: usize) -> (r: Result<
    Bitmap,
    InitError,
>)
    requires
        order < 10,
        sorted_regions(old(bootstrap).memory_ranges@),
        aligned_regions(old(bootstrap).memory_ranges@),
    ensures
        match r {
            Ok(bitmap) => {
                &&& bitmap.wf()
                &&& (span as int) / block_size(order as int) <= bitmap@.len()
                &&& bitmap@.len() <= 0x40_0000_0000_0000
                &&& forall|i: int| 0 <= i < bitmap@.len() ==> !bitmap@[i]
                &&& carve_bitmaps(old(bootstrap).memory_ranges@, span as int, order as int)
                    == carve_bitmaps(final(bootstrap).memory_ranges@, span as int, order + 1)
                &&& sorted_regions(final(bootstrap).memory_ranges@)
                &&& aligned_regions(final(bootstrap).memory_ranges@)
                &&& final(bootstrap).memory_ranges@.len() == old(bootstrap).memory_ranges@.len()
                &&& forall|i: int|
                    0 <= i < old(bootstrap).memory_ranges@.len() ==> {
                        &&& (#[trigger] final(bootstrap).memory_ranges@[i]).end() == old(
                            bootstrap,
                        ).memory_ranges@[i].end()
                        &&& final(bootstrap).memory_ranges@[i].base.0 >= old(
                            bootstrap,
                        ).memory_ranges@[i].base.0
                    }
            },
            Err(e) => carve_bitmaps(old(bootstrap).memory_ranges@, span as int, order as int)
                == Err::<Seq<MemoryRegion>, InitError>(e),
        },
{
    let size = buddy_size(order);
    let chunk = span / size;
    proof {
        lemma_fundamental_div_mod(span as int, size as int);
        assert(chunk <= 0x10_0000_0000_0000) by (nonlinear_arith)
            requires
                span == size * chunk + span % size,
                0 <= span % size,
                size >= 4096,
                span <= u64::MAX,
                chunk >= 0,
        ;
    }
    if chunk > (usize::MAX - 64) as u64 {
        return Err(InitError::RangeTooLarge);
    }
    let blocks = Bitmap::calculate_blocks(chunk as usize);
    if blocks > 0 {
        let bytes = (blocks as u64) * 8;
        let ghost before = bootstrap.memory_ranges@;
        assert forall|i: int| 0 <= i < before.len() implies (#[trigger] before[i]).end()
            <= u64::MAX by {
            assert(before[i].page_aligned());
        }
        assert(bytes == bitmap_bytes(span as int, order as int));
        match bootstrap.allocate(bytes) {
            None => {
                return Err(InitError::OutOfBootstrapMemory);
            },
            Some(_) => {},
        }
        proof {
            lemma_carved_keeps_order(before, bytes as int);
        }
    } else {
        assert(bitmap_bytes(span as int, order as int) == 0);
    }
    Ok(Bitmap::new_in(chunk as usize))
}

/// The bytes of the regions with one more region are the bytes of the regions
/// and those of the one.
pub proof fn lemma_regions_bytes_push(regions: Seq<MemoryRegion>, region: MemoryRegion)
    ensures
        regions_bytes(regions.push(region)) == regions_bytes(regions).union(
            Set::new(|x: int| region.base.0 <= x < region.end()),
        ),
{
    let a = regions_bytes(regions.push(region));
    let b = regions_bytes(regions).union(Set::new(|x: int| region.base.0 <= x < region.end()));
    let more = regions.push(region);
    assert forall|x: int| a.contains(x) == b.contains(x) by {
        if a.contains(x) {
            let i = choose|i: int|
                0 <= i < more.len() && (#[trigger] more[i]).base.0 <= x < more[i].end();
            if i < regions.len() {
                assert(regions[i] == more[i]);
            }
        }
        if regions_bytes(regions).contains(x) {
            let i = choose|i: int|
                0 <= i < regions.len() && (#[trigger] regions[i]).base.0 <= x < regions[i].end();
            assert(more[i] == regions[i]);
        }
        if region.base.0 <= x < region.end() {
            assert(more[regions.len() as int] == region);
        }
    }
    assert(a =~= b);
}

/// The largest class whose block fits a chunk of `chunk_size` bytes at
/// `addr`, and the smallest class if none fits.
pub open spec fn fit_order(addr: int, chunk_size: int) -> int {
    if block_fits(addr, chunk_size, 9) {
        9
    } else if block_fits(addr, chunk_size, 8) {
        8
    } else if block_fits(addr, chunk_size, 7) {
        7
    } else if block_fits(addr, chunk_size, 6) {
        6
    } else if block_fits(addr, chunk_size, 5) {
        5
    } else if block_fits(addr, chunk_size, 4) {
        4
    } else if block_fits(addr, chunk_size, 3) {
        3
    } else if block_fits(addr, chunk_size, 2) {
        2
    } else if block_fits(addr, chunk_size, 1) {
        1
    } else {
        0
    }
}

/// The blocks that the range from `current` up to `end` is divided into:
/// from the lowest address up, each block is the largest aligned one that
/// fits what is left.
pub open spec fn greedy_blocks(current: int, end: int) -> Set<(int, int)>
    decreases end - current,
{
    if current >= end {
        Set::empty()
    } else {
        let order = fit_order(current, end - current);
        if current + block_size(order) > end {
            Set::empty().insert((order, current))
        } else {
            greedy_blocks(current + block_size(order), end).insert((order, current))
        }
    }
}

/// The blocks that the regions are divided into.
pub open spec fn regions_blocks(regions: Seq<MemoryRegion>) -> Set<(int, int)>
    decreases regions.len(),
{
    if regions.len() == 0 {
        Set::empty()
    } else {
        regions_blocks(regions.drop_last()).union(
            greedy_blocks(regions.last().base.0 as int, regions.last().end()),
        )
    }
}

/// A representation of a frame: one 4 KiB page of physical memory.
#[derive(Debug, Clone, Copy, PartialEq, Eq, Structural)]
pub struct Frame {
    /// The start address of the frame, aligned to the frame size.
    pub start: PhysAddr,
}

impl Frame {
    /// Construct the frame containing `addr`.
    pub fn containing_addr(addr: PhysAddr) -> (r: Self)
        ensures
            r.start.0 == addr.0 - addr.0 % 4096,
            r.start.0 % 4096 == 0,
    {
        proof {
            lemma_block_sizes_are_pow2();
        }
        Self { start: addr.align_down(4096) }
    }

    /// The first address of the frame.
    pub fn start_addr(&self) -> (r: PhysAddr)
        ensures
            r == self.start,
    {
        self.start
    }
}

/// Why an entry of a page table gives no frame.
#[derive(Debug, Clone, Copy, PartialEq, Eq, Structural)]
pub enum FrameError {
    /// Attempting to read an unallocated frame.
    FrameNotPresent,
    /// Attempting to read a large frame.
    HugePageNotSupported,
}

/// A buddy allocator used to allocate physical frames in memory.
#[derive(Debug)]
pub struct BuddyFrameAllocator {
    buddies: Vec<Bitmap>,
    free: Vec<u64>,
    base: PhysAddr,
    end: PhysAddr,
    size: u64,
}

impl BuddyFrameAllocator {
    /// The first address under management.
    pub closed spec fn base_addr(&self) -> int {
        self.base.0 as int
    }

    /// The address after the last one under management.
    pub closed spec fn end_addr(&self) -> int {
        self.end.0 as int
    }

    /// The number of bytes that were free when the allocator was made.
    pub closed spec fn managed_bytes(&self) -> int {
        self.size as int
    }

    /// `addr` is where a block of class `order` can lie: aligned to its
    /// size and inside the managed range.
    pub open spec fn valid_block(&self, order: int, addr: int) -> bool {
        &&& 0 <= order < 10
        &&& addr % block_size(order) == 0
        &&& self.base_addr() <= addr
        &&& addr + block_size(order) <= self.end_addr()
    }

    spec fn bit_index(&self, order: int, addr: int) -> int {
        (addr - self.base.0) / block_size(order)
    }

    spec fn bit_addr(&self, order: int, idx: int) -> int {
        align_up_spec(self.base.0 as int, block_size(order)) + idx * block_size(order)
    }

    spec fn bit(&self, order: int, idx: int) -> bool {
        self.buddies@[order]@[idx]
    }

    /// The block of class `order` at `addr` is marked free.
    pub closed spec fn is_free(&self, order: int, addr: int) -> bool {
        self.valid_block(order, addr) && self.bit(order, self.bit_index(order, addr))
    }

    /// The blocks marked free, each as its class and its address.
    pub open spec fn free_blocks(&self) -> Set<(int, int)> {
        Set::new(|b: (int, int)| self.is_free(b.0, b.1))
    }

    /// The addresses of the bytes that lie in a block marked free.
    pub open spec fn free_bytes(&self) -> Set<int> {
        Set::new(
            |a: int|
                exists|o: int, b: int| #[trigger] self.is_free(o, b) && b <= a < b + block_size(o),
        )
    }

    /// The number of 4 KiB pages that lie in a block marked free.
    pub closed spec fn free_pages(&self) -> int {
        self.free@[0] + 2 * self.free@[1] + 4 * self.free@[2] + 8 * self.free@[3] + 16
            * self.free@[4] + 32 * self.free@[5] + 64 * self.free@[6] + 128 * self.free@[7] + 256
            * self.free@[8] + 512 * self.free@[9]
    }

    /// The bitmaps span the managed range, the counters count their set bits,
    /// every set bit stands for a block inside the range, and no two blocks
    /// marked free share a byte.
    pub closed spec fn wf(&self) -> bool {
        &&& self.buddies@.len() == 10
        &&& self.free@.len() == 10
        &&& self.base.0 <= self.end.0
        &&& forall|o: int|
            0 <= o < 10 ==> {
                &&& (#[trigger] self.buddies@[o]).wf()
                &&& (self.end.0 - self.base.0) / block_size(o) <= self.buddies@[o]@.len()
                &&& self.buddies@[o]@.len() <= 0x40_0000_0000_0000
                &&& self.free@[o] == count_true(self.buddies@[o]@)
            }
        &&& forall|o: int, i: int|
            0 <= o < 10 && 0 <= i < self.buddies@[o]@.len() && #[trigger] self.bit(o, i)
                ==> self.valid_block(o, self.bit_addr(o, i))
        &&& forall|o1: int, a1: int, o2: int, a2: int|
            #[trigger] self.is_free(o1, a1) && #[trigger] self.is_free(o2, a2) && (o1, a1) != (
                o2,
                a2,
            ) ==> blocks_disjoint(o1, a1, o2, a2)
    }

    /// In a well-formed allocator the blocks marked free lie inside the
    /// managed range and no two of them share a byte.
    pub proof fn lemma_free_blocks_disjoint(&self, o1: int, a1: int, o2: int, a2: int)
        requires
            self.wf(),
            self.is_free(o1, a1),
            self.is_free(o2, a2),
            (o1, a1) != (o2, a2),
        ensures
            blocks_disjoint(o1, a1, o2, a2),
            self.valid_block(o1, a1),
            self.valid_block(o2, a2),
    {
    }

    /// A free byte lies inside the managed range.
    pub proof fn lemma_free_bytes_in_range(&self, x: int)
        requires
            self.free_bytes().contains(x),
        ensures
            self.base_addr() <= x < self.end_addr(),
    {
    }

    /// A block marked free is a valid block.
    pub proof fn lemma_free_is_valid(&self, order: int, addr: int)
        requires
            self.is_free(order, addr),
        ensures
            self.valid_block(order, addr),
    {
    }

    /// The index of a valid block lies inside the bitmap of its class, and the
    /// block is found again from that index.
    proof fn lemma_valid_index(&self, order: int, addr: int)
        requires
            self.wf(),
            self.valid_block(order, addr),
        ensures
            0 <= self.bit_index(order, addr) < self.buddies@[order]@.len(),
            self.bit_addr(order, self.bit_index(order, addr)) == addr,
    {
        lemma_index_bound(self.base.0 as int, self.end.0 as int, block_size(order), addr);
        lemma_index_roundtrip(self.base.0 as int, block_size(order), addr);
        assert(self.buddies@[order].wf());
    }

    /// The index of a block in the bitmap of its class.
    fn get_bit_idx(&self, addr: PhysAddr, order: usize) -> (r: usize)
        requires
            self.wf(),
            self.valid_block(order as int, addr.0 as int),
        ensures
            r == self.bit_index(order as int, addr.0 as int),
            r < self.buddies@[order as int]@.len(),
    {
        proof {
            self.lemma_valid_index(order as int, addr.0 as int);
            assert(self.buddies@[order as int].wf());
        }
        let offset = addr.0 - self.base.0;
        let idx = offset / buddy_size(order);
        assert(idx < self.buddies@[order as int]@.len());
        assert(self.buddies@[order as int]@.len() <= usize::MAX) by {
            self.buddies@[order as int].lemma_len_fits();
        }
        idx as usize
    }

    /// Both allocators manage the same range.
    pub open spec fn same_range(&self, other: &Self) -> bool {
        &&& self.base_addr() == other.base_addr()
        &&& self.end_addr() == other.end_addr()
        &&& self.managed_bytes() == other.managed_bytes()
    }

    /// Every set bit of a well-formed allocator is a block marked free.
    proof fn lemma_bit_is_free(&self, order: int, idx: int)
        requires
            self.wf(),
            0 <= order < 10,
            0 <= idx < self.buddies@[order]@.len(),
            self.bit(order, idx),
        ensures
            self.is_free(order, self.bit_addr(order, idx)),
            self.bit_index(order, self.bit_addr(order, idx)) == idx,
    {
        lemma_index_inverse(self.base.0 as int, block_size(order), idx);
    }

    /// The page count is never negative, and it is zero exactly when no block
    /// is marked free.
    pub proof fn lemma_free_pages_zero(&self)
        requires
            self.wf(),
        ensures
            self.free_pages() >= 0,
            self.free_pages() == 0 <==> (forall|o: int, a: int| !self.is_free(o, a)),
    {
        assert forall|o: int| 0 <= o < 10 implies (self.free@[o] == 0 <==> (forall|a: int|
            !self.is_free(o, a))) by {
            let bm = self.buddies@[o];
            assert(bm.wf());
            lemma_count_true_zero(bm@);
            if self.free@[o] == 0 {
                assert forall|a: int| !self.is_free(o, a) by {
                    if self.is_free(o, a) {
                        self.lemma_valid_index(o, a);
                    }
                }
            } else {
                let i = choose|i: int| 0 <= i < bm@.len() && bm@[i];
                assert(self.bit(o, i));
                self.lemma_bit_is_free(o, i);
            }
        }
        if self.free_pages() == 0 {
            assert forall|o: int, a: int| !self.is_free(o, a) by {
                if self.is_free(o, a) {
                    assert(0 <= o < 10);
                    assert(self.free@[o] == 0);
                }
            }
        } else {
            if forall|o: int, a: int| !self.is_free(o, a) {
                assert forall|o: int| 0 <= o < 10 implies self.free@[o] == 0 by {
                    assert(forall|a: int| !self.is_free(o, a));
                }
                assert(self.free@[0] == 0 && self.free@[1] == 0 && self.free@[2] == 0
                    && self.free@[3] == 0 && self.free@[4] == 0 && self.free@[5] == 0
                    && self.free@[6] == 0 && self.free@[7] == 0 && self.free@[8] == 0
                    && self.free@[9] == 0);
            }
        }
    }

    /// Marks the block of class `order` at `addr` free and counts it.
    /// Returns whether the mark changed.
    fn set_bit(&mut self, addr: PhysAddr, order: usize) -> (change: bool)
        requires
            old(self).wf(),
            old(self).valid_block(order as int, addr.0 as int),
            forall|o: int, a: int| #[trigger]
                old(self).is_free(o, a) ==> blocks_disjoint(order as int, addr.0 as int, o, a),
        ensures
            final(self).wf(),
            final(self).same_range(old(self)),
            change,
            forall|o: int, a: int| #[trigger]
                final(self).is_free(o, a) <==> (old(self).is_free(o, a) || (o == order && a
                    == addr.0)),
            final(self).free_pages() == old(self).free_pages() + block_pages(order as int),
    {
        let idx = self.get_bit_idx(addr, order);
        let change = !self.buddies[order].is_set(idx);
        proof {
            if !change {
                assert(old(self).is_free(order as int, addr.0 as int));
            }
            lemma_count_true_bound(self.buddies@[order as int]@);
            lemma_count_true_update(self.buddies@[order as int]@, idx as int, true);
            assert(self.buddies@[order as int].wf());
        }
        if change {
            self.buddies[order].set(idx, true);
            let count = self.free[order];
            self.free.set(order, count + 1);
        }
        proof {
            let pre = *old(self);
            let post = *self;
            assert(post.buddies@ =~= pre.buddies@.update(order as int, post.buddies@[order as int]));
            pre.lemma_valid_index(order as int, addr.0 as int);
            assert forall|o: int, a: int| #[trigger]
                post.is_free(o, a) <==> (pre.is_free(o, a) || (o == order && a == addr.0)) by {
                if pre.valid_block(o, a) {
                    pre.lemma_valid_index(o, a);
                    if o == order as int {
                        assert(post.bit(o, pre.bit_index(o, a)) == (pre.bit_index(o, a) == idx
                            || pre.bit(o, pre.bit_index(o, a))));
                    } else {
                        assert(post.buddies@[o] == pre.buddies@[o]);
                    }
                }
            }
            assert forall|o: int, i: int|
                0 <= o < 10 && 0 <= i < post.buddies@[o]@.len() && #[trigger] post.bit(
                    o,
                    i,
                ) implies post.valid_block(o, post.bit_addr(o, i)) by {
                if o == order as int && i == idx as int {
                } else {
                    assert(pre.bit(o, i));
                }
            }
            assert forall|o: int| 0 <= o < 10 implies {
                &&& (#[trigger] post.buddies@[o]).wf()
                &&& (post.end.0 - post.base.0) / block_size(o) <= post.buddies@[o]@.len()
                &&& post.buddies@[o]@.len() <= 0x40_0000_0000_0000
                &&& post.free@[o] == count_true(post.buddies@[o]@)
            } by {
                assert(pre.buddies@[o].wf());
            }
        }
        change
    }

    /// Clears the mark of the block of class `order` at `addr`, if it is
    /// marked free. Returns whether the mark changed.
    fn clear_bit(&mut self, addr: PhysAddr, order: usize) -> (change: bool)
        requires
            old(self).wf(),
            order < 10,
        ensures
            final(self).wf(),
            final(self).same_range(old(self)),
            change == old(self).is_free(order as int, addr.0 as int),
            forall|o: int, a: int| #[trigger]
                final(self).is_free(o, a) <==> (old(self).is_free(o, a) && !(o == order && a
                    == addr.0)),
            final(self).free_pages() == old(self).free_pages() - if change {
                block_pages(order as int)
            } else {
                0
            },
    {
        let size = buddy_size(order);
        if addr.0 < self.base.0 || addr.0 % size != 0 || self.end.0 < addr.0 || self.end.0
            - addr.0 < size {
            return false;
        }
        let idx = self.get_bit_idx(addr, order);
        let change = self.buddies[order].is_set(idx);
        proof {
            lemma_count_true_bound(self.buddies@[order as int]@);
            lemma_count_true_update(self.buddies@[order as int]@, idx as int, false);
            assert(self.buddies@[order as int].wf());
        }
        if change {
            self.buddies[order].set(idx, false);
            let count = self.free[order];
            self.free.set(order, count - 1);
        }
        proof {
            let pre = *old(self);
            let post = *self;
            assert(post.buddies@ =~= pre.buddies@.update(order as int, post.buddies@[order as int]));
            pre.lemma_valid_index(order as int, addr.0 as int);
            assert forall|o: int, a: int| #[trigger]
                post.is_free(o, a) <==> (pre.is_free(o, a) && !(o == order && a == addr.0)) by {
                if pre.valid_block(o, a) {
                    pre.lemma_valid_index(o, a);
                    if o == order as int {
                        assert(post.bit(o, pre.bit_index(o, a)) == (pre.bit_index(o, a) != idx
                            && pre.bit(o, pre.bit_index(o, a))));
                    } else {
                        assert(post.buddies@[o] == pre.buddies@[o]);
                    }
                }
            }
            assert forall|o: int, i: int|
                0 <= o < 10 && 0 <= i < post.buddies@[o]@.len() && #[trigger] post.bit(
                    o,
                    i,
                ) implies post.valid_block(o, post.bit_addr(o, i)) by {
                assert(pre.bit(o, i));
            }
            assert forall|o: int| 0 <= o < 10 implies {
                &&& (#[trigger] post.buddies@[o]).wf()
                &&& (post.end.0 - post.base.0) / block_size(o) <= post.buddies@[o]@.len()
                &&& post.buddies@[o]@.len() <= 0x40_0000_0000_0000
                &&& post.free@[o] == count_true(post.buddies@[o]@)
            } by {
                assert(pre.buddies@[o].wf());
            }
        }
        change
    }

    /// Takes the lowest block marked free in class `order`, if there is one.
    fn find_free(&mut self, order: usize) -> (r: Option<PhysAddr>)
        requires
            old(self).wf(),
            order < 10,
        ensures
            final(self).wf(),
            final(self).same_range(old(self)),
            match r {
                Some(p) => {
                    &&& old(self).is_free(order as int, p.0 as int)
                    &&& forall|a: int| #[trigger] old(self).is_free(order as int, a) ==> p.0 <= a
                    &&& forall|o: int, a: int| #[trigger]
                        final(self).is_free(o, a) <==> (old(self).is_free(o, a) && !(o == order
                            && a == p.0))
                    &&& final(self).free_pages() == old(self).free_pages() - block_pages(
                        order as int,
                    )
                },
                None => {
                    &&& forall|a: int| !old(self).is_free(order as int, a)
                    &&& forall|o: int, a: int| #[trigger]
                        final(self).is_free(o, a) == old(self).is_free(o, a)
                    &&& final(self).free_pages() == old(self).free_pages()
                },
            },
    {
        assert(self.buddies@[order as int].wf());
        let first_free = match self.buddies[order].find_first_set() {
            Some(i) => i,
            None => {
                proof {
                    assert forall|a: int| !self.is_free(order as int, a) by {
                        if self.valid_block(order as int, a) {
                            self.lemma_valid_index(order as int, a);
                        }
                    }
                }
                return None;
            },
        };
        let size = buddy_size(order);
        proof {
            assert(self.bit(order as int, first_free as int));
            self.lemma_bit_is_free(order as int, first_free as int);
            assert(first_free * size >= 0) by (nonlinear_arith)
                requires
                    first_free >= 0,
                    size > 0,
            ;
            assert(size * first_free == first_free * size) by (nonlinear_arith);
            assert forall|a: int| #[trigger] self.is_free(order as int, a) implies self.bit_addr(
                order as int,
                first_free as int,
            ) <= a by {
                self.lemma_valid_index(order as int, a);
                let i = self.bit_index(order as int, a);
                assert(i >= first_free);
                assert(i * size >= first_free * size) by (nonlinear_arith)
                    requires
                        i >= first_free,
                        size > 0,
                ;
            }
        }
        let start = super::addr::align_up(self.base.0, size);
        let p = PhysAddr::new(start + size * (first_free as u64));
        let change = self.clear_bit(p, order);
        assert(change);
        Some(p)
    }

    /// The buddy of the block of class `order` at `addr`.
    pub fn get_buddy(addr: PhysAddr, order: usize) -> (r: PhysAddr)
        requires
            order < 9,
            addr.0 % (block_size(order as int) as u64) == 0,
            addr.0 + block_size(order as int) <= u64::MAX,
        ensures
            r.0 == buddy_of(addr.0 as int, order as int),
    {
        let size = buddy_size(order);
        proof {
            lemma_half_aligned(addr.0 as int, size as int);
        }
        let base = addr.align_down(size * 2);
        if base.0 == addr.0 {
            addr.offset(size)
        } else {
            base
        }
    }

    /// The largest class whose block fits a chunk of `chunk_size` bytes at
    /// `addr`, and the smallest class if none fits.
    pub fn find_order(addr: PhysAddr, chunk_size: u64) -> (r: usize)
        ensures
            r < 10,
            r == fit_order(addr.0 as int, chunk_size as int),
            block_fits(addr.0 as int, chunk_size as int, r as int) || r == 0,
            forall|o: int| r < o < 10 ==> !block_fits(addr.0 as int, chunk_size as int, o),
    {
        let mut order: usize = ORDER_COUNT;
        while order > 0
            invariant
                order <= 10,
                forall|o: int| order <= o < 10 ==> !block_fits(addr.0 as int, chunk_size as int, o),
            decreases order,
        {
            order -= 1;
            let size = buddy_size(order);
            if size <= chunk_size && addr.0 % size == 0 {
                proof {
                    Self::lemma_fit_order(addr.0 as int, chunk_size as int, order as int);
                }
                return order;
            }
        }
        proof {
            Self::lemma_fit_order(addr.0 as int, chunk_size as int, 0);
        }
        0
    }

    /// The largest class that fits is the class that fits with none above it
    /// that does, and the smallest class if none fits.
    proof fn lemma_fit_order(addr: int, chunk_size: int, order: int)
        requires
            0 <= order < 10,
            block_fits(addr, chunk_size, order) || order == 0,
            forall|o: int| order < o < 10 ==> !block_fits(addr, chunk_size, o),
        ensures
            fit_order(addr, chunk_size) == order,
    {
        assert(!block_fits(addr, chunk_size, 9) || order == 9);
        assert(!block_fits(addr, chunk_size, 8) || order >= 8);
        assert(!block_fits(addr, chunk_size, 7) || order >= 7);
        assert(!block_fits(addr, chunk_size, 6) || order >= 6);
        assert(!block_fits(addr, chunk_size, 5) || order >= 5);
        assert(!block_fits(addr, chunk_size, 4) || order >= 4);
        assert(!block_fits(addr, chunk_size, 3) || order >= 3);
        assert(!block_fits(addr, chunk_size, 2) || order >= 2);
        assert(!block_fits(addr, chunk_size, 1) || order >= 1);
    }

    /// Marks the page-aligned range from `base` up to `end` free, as the
    /// largest aligned blocks that fit, from the lowest address up.
    pub fn insert_range(&mut self, base: PhysAddr, end: PhysAddr)
        requires
            old(self).wf(),
            base.0 <= end.0,
            base.0 % 4096 == 0,
            end.0 % 4096 == 0,
            old(self).base_addr() <= base.0,
            end.0 <= old(self).end_addr(),
            forall|o: int, a: int| #[trigger]
                old(self).is_free(o, a) ==> a + block_size(o) <= base.0 || end.0 <= a,
        ensures
            final(self).wf(),
            final(self).same_range(old(self)),
            forall|o: int, a: int| old(self).is_free(o, a) ==> #[trigger] final(self).is_free(o, a),
            forall|o: int, a: int| #[trigger]
                final(self).is_free(o, a) && !old(self).is_free(o, a) ==> base.0 <= a && a
                    + block_size(o) <= end.0,
            final(self).free_blocks() == old(self).free_blocks().union(
                greedy_blocks(base.0 as int, end.0 as int),
            ),
            final(self).free_bytes() == old(self).free_bytes().union(
                Set::new(|x: int| base.0 <= x < end.0),
            ),
            final(self).free_pages() == old(self).free_pages() + (end.0 - base.0) / 4096,
    {
        let mut remaining = end.0 - base.0;
        let mut current = base;
        while remaining > 0
            invariant
                self.wf(),
                self.same_range(old(self)),
                base.0 <= current.0,
                current.0 + remaining == end.0,
                current.0 % 4096 == 0,
                remaining % 4096 == 0,
                old(self).base_addr() <= base.0,
                end.0 <= old(self).end_addr(),
                forall|o: int, a: int| #[trigger]
                    old(self).is_free(o, a) ==> a + block_size(o) <= base.0 || end.0 <= a,
                forall|o: int, a: int| old(self).is_free(o, a) ==> #[trigger] self.is_free(o, a),
                forall|o: int, a: int| #[trigger]
                    self.is_free(o, a) && !old(self).is_free(o, a) ==> base.0 <= a && a
                        + block_size(o) <= current.0,
                forall|x: int| base.0 <= x < current.0 ==> #[trigger] self.free_bytes().contains(x),
                self.free_pages() == old(self).free_pages() + (current.0 - base.0) / 4096,
                self.free_blocks().union(greedy_blocks(current.0 as int, end.0 as int)) == old(
                    self,
                ).free_blocks().union(greedy_blocks(base.0 as int, end.0 as int)),
            decreases remaining,
        {
            let order = Self::find_order(current, remaining);
            let size = buddy_size(order);
            let ghost before = *self;
            let ghost rest = greedy_blocks(current.0 + size, end.0 as int);
            assert(greedy_blocks(current.0 as int, end.0 as int) == rest.insert(
                (order as int, current.0 as int),
            ));
            assert(block_fits(current.0 as int, remaining as int, 0));
            assert(block_fits(current.0 as int, remaining as int, order as int));
            self.set_bit(current, order);
            proof {
                assert forall|x: int| base.0 <= x < current.0 + size implies #[trigger]
                    self.free_bytes().contains(x) by {
                    if x < current.0 {
                        assert(before.free_bytes().contains(x));
                        let (o, b) = choose|o: int, b: int| #[trigger]
                            before.is_free(o, b) && b <= x < b + block_size(o);
                        assert(self.is_free(o, b));
                    } else {
                        assert(self.is_free(order as int, current.0 as int));
                    }
                }
                assert(self.free_blocks() =~= before.free_blocks().insert(
                    (order as int, current.0 as int),
                ));
                assert(self.free_blocks().union(rest) =~= before.free_blocks().union(
                    rest.insert((order as int, current.0 as int)),
                ));
            }
            current = current.offset(size);
            remaining -= size;
        }
        proof {
            assert(greedy_blocks(end.0 as int, end.0 as int) =~= Set::<(int, int)>::empty());
            assert(self.free_blocks() =~= self.free_blocks().union(
                greedy_blocks(end.0 as int, end.0 as int),
            ));
        }
        proof {
            let range = Set::new(|x: int| base.0 <= x < end.0);
            let a = self.free_bytes();
            let b = old(self).free_bytes().union(range);
            assert forall|x: int| a.contains(x) == b.contains(x) by {
                if a.contains(x) {
                    let (o, p) = choose|o: int, p: int| #[trigger]
                        self.is_free(o, p) && p <= x < p + block_size(o);
                    if old(self).is_free(o, p) {
                        assert(old(self).free_bytes().contains(x));
                    }
                }
                if old(self).free_bytes().contains(x) {
                    let (o, p) = choose|o: int, p: int| #[trigger]
                        old(self).is_free(o, p) && p <= x < p + block_size(o);
                    assert(self.is_free(o, p));
                }
            }
            assert(a =~= b);
        }
    }

    /// Marking one more block free adds exactly that block's bytes.
    proof fn lemma_bytes_after_insert(pre: &Self, post: &Self, order: int, addr: int)
        requires
            forall|o: int, a: int| #[trigger]
                post.is_free(o, a) <==> (pre.is_free(o, a) || (o == order && a == addr)),
        ensures
            post.free_bytes() == pre.free_bytes().union(block_bytes(order, addr)),
    {
        let a = post.free_bytes();
        let b = pre.free_bytes().union(block_bytes(order, addr));
        assert forall|x: int| a.contains(x) == b.contains(x) by {
            if a.contains(x) {
                let (o, p) = choose|o: int, p: int| #[trigger]
                    post.is_free(o, p) && p <= x < p + block_size(o);
                if pre.is_free(o, p) {
                    assert(pre.free_bytes().contains(x));
                }
            }
            if pre.free_bytes().contains(x) {
                let (o, p) = choose|o: int, p: int| #[trigger]
                    pre.is_free(o, p) && p <= x < p + block_size(o);
                assert(post.is_free(o, p));
            }
            if block_bytes(order, addr).contains(x) {
                assert(post.is_free(order, addr));
            }
        }
        assert(a =~= b);
    }

    /// Clearing the mark of one block takes exactly that block's bytes away.
    proof fn lemma_bytes_after_remove(pre: &Self, post: &Self, order: int, addr: int)
        requires
            pre.wf(),
            pre.is_free(order, addr),
            forall|o: int, a: int| #[trigger]
                post.is_free(o, a) <==> (pre.is_free(o, a) && !(o == order && a == addr)),
        ensures
            post.free_bytes() == pre.free_bytes().difference(block_bytes(order, addr)),
            block_bytes(order, addr).subset_of(pre.free_bytes()),
    {
        let a = post.free_bytes();
        let b = pre.free_bytes().difference(block_bytes(order, addr));
        assert forall|x: int| a.contains(x) == b.contains(x) by {
            if a.contains(x) {
                let (o, p) = choose|o: int, p: int| #[trigger]
                    post.is_free(o, p) && p <= x < p + block_size(o);
                assert(pre.is_free(o, p));
                assert(blocks_disjoint(o, p, order, addr));
                assert(pre.free_bytes().contains(x));
            }
            if b.contains(x) {
                let (o, p) = choose|o: int, p: int| #[trigger]
                    pre.is_free(o, p) && p <= x < p + block_size(o);
                assert(post.is_free(o, p));
            }
        }
        assert(a =~= b);
        assert forall|x: int| block_bytes(order, addr).contains(x) implies pre.free_bytes().contains(
            x,
        ) by {
            assert(pre.is_free(order, addr));
        }
    }

    /// What taking a block of class `order` gives and changes: the block is the
    /// lowest free block of the smallest class from `order` up that has one;
    /// it is no longer marked free, and the upper half of each split is
    /// marked free in the next smaller class. Where no class from `order` up
    /// has a free block, nothing is given and nothing changes.
    pub open spec fn takes_lowest(pre: &Self, post: &Self, order: int, r: Option<PhysAddr>) -> bool {
        match r {
            Some(p) => exists|found: int|
                {
                    &&& order <= found < 10
                    &&& #[trigger] pre.is_free(found, p.0 as int)
                    &&& forall|o: int, a: int| order <= o < found ==> !#[trigger] pre.is_free(o, a)
                    &&& forall|a: int| #[trigger] pre.is_free(found, a) ==> p.0 <= a
                    &&& forall|o: int, a: int| #[trigger]
                        post.is_free(o, a) <==> ((pre.is_free(o, a) && !(o == found && a == p.0))
                            || (order <= o < found && a == p.0 + block_size(o)))
                },
            None => {
                &&& forall|o: int, a: int| order <= o ==> !#[trigger] pre.is_free(o, a)
                &&& forall|o: int, a: int| #[trigger] post.is_free(o, a) == pre.is_free(o, a)
            },
        }
    }

    /// Takes a block of class `order` out of the free memory: the lowest
    /// free block of the smallest class from `order` up that has one. A
    /// larger block is split, and the upper half of each split is marked free
    /// in the next smaller class. Returns `None` when no class from `order`
    /// up has a free block.
    pub fn allocate_frame(&mut self, order: usize) -> (r: Option<PhysAddr>)
        requires
            old(self).wf(),
            order < 10,
        ensures
            final(self).wf(),
            final(self).same_range(old(self)),
            Self::takes_lowest(old(self), final(self), order as int, r),
            match r {
                Some(p) => {
                    &&& old(self).valid_block(order as int, p.0 as int)
                    &&& block_bytes(order as int, p.0 as int).subset_of(old(self).free_bytes())
                    &&& final(self).free_bytes() == old(self).free_bytes().difference(
                        block_bytes(order as int, p.0 as int),
                    )
                    &&& final(self).free_pages() == old(self).free_pages() - block_pages(
                        order as int,
                    )
                },
                None => {
                    &&& final(self).free_bytes() == old(self).free_bytes()
                    &&& final(self).free_pages() == old(self).free_pages()
                },
            },
    {
        let mut i = order;
        while i < ORDER_COUNT
            invariant
                order <= i <= 10,
                *self == *old(self),
                self.wf(),
                forall|o: int, a: int| order <= o < i ==> !#[trigger] old(self).is_free(o, a),
            decreases 10 - i,
        {
            if self.free[i] > 0 {
                proof {
                    self.lemma_counter_positive(i as int);
                }
                let found = self.find_free(i);
                let result = found.unwrap();
                let ghost taken = *self;
                proof {
                    Self::lemma_bytes_after_remove(old(self), &taken, i as int, result.0 as int);
                }
                let mut j = i;
                while j > order
                    invariant
                        order <= j <= i < 10,
                        self.wf(),
                        self.same_range(old(self)),
                        old(self).wf(),
                        old(self).is_free(i as int, result.0 as int),
                        forall|o: int, a: int| #[trigger]
                            self.is_free(o, a) <==> ((old(self).is_free(o, a) && !(o == i && a
                                == result.0)) || (j <= o < i && a == result.0 + block_size(o))),
                        block_bytes(j as int, result.0 as int).subset_of(old(self).free_bytes()),
                        self.free_bytes() == old(self).free_bytes().difference(
                            block_bytes(j as int, result.0 as int),
                        ),
                        self.free_pages() == old(self).free_pages() - block_pages(j as int),
                    decreases j,
                {
                    j -= 1;
                    let half = buddy_size(j);
                    let ghost before = *self;
                    proof {
                        lemma_aligned_lower(result.0 as int, i as int, j as int);
                        lemma_aligned_lower(result.0 as int, i as int, j as int + 1);
                        lemma_half_aligned(result.0 as int, half as int);
                        assert(block_size(j as int + 1) == 2 * half);
                        assert(block_size(j as int + 1) <= block_size(i as int));
                        assert forall|o: int, a: int| #[trigger]
                            self.is_free(o, a) implies blocks_disjoint(
                            j as int,
                            result.0 + half,
                            o,
                            a,
                        ) by {
                            if old(self).is_free(o, a) && !(o == i && a == result.0) {
                                old(self).lemma_free_blocks_disjoint(
                                    o,
                                    a,
                                    i as int,
                                    result.0 as int,
                                );
                            } else {
                                assert(block_size(o) >= 2 * half);
                            }
                        }
                    }
                    let upper = result.offset(half);
                    self.set_bit(upper, j);
                    proof {
                        Self::lemma_bytes_after_insert(&before, self, j as int, upper.0 as int);
                        let lower = block_bytes(j as int, result.0 as int);
                        let whole = block_bytes(j as int + 1, result.0 as int);
                        let top = block_bytes(j as int, upper.0 as int);
                        assert(lower.subset_of(old(self).free_bytes())) by {
                            assert forall|x: int| lower.contains(x) implies old(
                                self,
                            ).free_bytes().contains(x) by {
                                assert(whole.contains(x));
                            }
                        }
                        assert(self.free_bytes() =~= old(self).free_bytes().difference(lower)) by {
                            assert forall|x: int|
                                self.free_bytes().contains(x) == old(
                                    self,
                                ).free_bytes().difference(lower).contains(x) by {
                                if top.contains(x) {
                                    assert(whole.contains(x));
                                }
                                if lower.contains(x) {
                                    assert(whole.contains(x));
                                }
                            }
                        }
                    }
                }
                proof {
                    lemma_aligned_lower(result.0 as int, i as int, order as int);
                    assert(old(self).valid_block(i as int, result.0 as int));
                    assert(block_size(order as int) <= block_size(i as int));
                }
                return Some(result);
            }
            proof {
                self.lemma_counter_zero(i as int);
            }
            i += 1;
        }
        None
    }

    /// A positive counter means that its class has a block marked free.
    proof fn lemma_counter_positive(&self, order: int)
        requires
            self.wf(),
            0 <= order < 10,
            self.free@[order] > 0,
        ensures
            exists|a: int| self.is_free(order, a),
    {
        let bm = self.buddies@[order];
        assert(bm.wf());
        lemma_count_true_zero(bm@);
        let i = choose|i: int| 0 <= i < bm@.len() && bm@[i];
        assert(self.bit(order, i));
        self.lemma_bit_is_free(order, i);
    }

    /// A counter of zero means that its class has no block marked free.
    proof fn lemma_counter_zero(&self, order: int)
        requires
            self.wf(),
            0 <= order < 10,
            self.free@[order] == 0,
        ensures
            forall|a: int| !self.is_free(order, a),
    {
        let bm = self.buddies@[order];
        assert(bm.wf());
        lemma_count_true_zero(bm@);
        assert forall|a: int| !self.is_free(order, a) by {
            if self.is_free(order, a) {
                self.lemma_valid_index(order, a);
            }
        }
    }

    /// Returns the block of class `order` at `addr` to the free memory,
    /// joining it with its buddy for as long as the buddy is free too.
    /// The block must be one that was allocated and not returned since: a
    /// valid block that shares no byte with the free memory.
    pub fn deallocate_frame(&mut self, addr: PhysAddr, order: usize)
        requires
            old(self).wf(),
            old(self).valid_block(order as int, addr.0 as int),
            forall|o: int, a: int| #[trigger]
                old(self).is_free(o, a) ==> blocks_disjoint(order as int, addr.0 as int, o, a),
        ensures
            final(self).wf(),
            final(self).same_range(old(self)),
            final(self).free_blocks() == coalesce(
                old(self).free_blocks(),
                order as int,
                addr.0 as int,
            ),
            final(self).free_bytes() == old(self).free_bytes().union(
                block_bytes(order as int, addr.0 as int),
            ),
            final(self).free_pages() == old(self).free_pages() + block_pages(order as int),
    {
        let ghost addr0 = addr;
        let ghost order0 = order;
        let mut cur = addr;
        let mut level = order;
        loop
            invariant
                addr0 == addr,
                order0 == order,
                self.wf(),
                self.same_range(old(self)),
                self.valid_block(level as int, cur.0 as int),
                forall|o: int, a: int| #[trigger]
                    self.is_free(o, a) ==> blocks_disjoint(level as int, cur.0 as int, o, a),
                coalesce(self.free_blocks(), level as int, cur.0 as int) == coalesce(
                    old(self).free_blocks(),
                    order0 as int,
                    addr0.0 as int,
                ),
                self.free_bytes().union(block_bytes(level as int, cur.0 as int)) == old(
                    self,
                ).free_bytes().union(block_bytes(order0 as int, addr0.0 as int)),
                self.free_pages() + block_pages(level as int) == old(self).free_pages()
                    + block_pages(order0 as int),
            decreases 10 - level,
        {
            let ghost before = *self;
            if level < ORDER_COUNT - 1 {
                let buddy = Self::get_buddy(cur, level);
                if self.clear_bit(buddy, level) {
                    let merged = if cur.0 < buddy.0 {
                        cur
                    } else {
                        buddy
                    };
                    proof {
                        let s = block_size(level as int);
                        lemma_half_aligned(cur.0 as int, s);
                        assert(block_size(level as int + 1) == 2 * s);
                        assert(before.free_blocks().contains((level as int, buddy.0 as int)));
                        assert(self.free_blocks() =~= before.free_blocks().remove(
                            (level as int, buddy.0 as int),
                        ));
                        Self::lemma_bytes_after_remove(
                            &before,
                            self,
                            level as int,
                            buddy.0 as int,
                        );
                        before.lemma_free_is_valid(level as int, buddy.0 as int);
                        assert forall|o: int, a: int| #[trigger]
                            self.is_free(o, a) implies blocks_disjoint(
                            level as int + 1,
                            merged.0 as int,
                            o,
                            a,
                        ) by {
                            before.lemma_free_blocks_disjoint(
                                o,
                                a,
                                level as int,
                                buddy.0 as int,
                            );
                        }
                        let joined = block_bytes(level as int + 1, merged.0 as int);
                        let one = block_bytes(level as int, cur.0 as int);
                        let other = block_bytes(level as int, buddy.0 as int);
                        assert(joined =~= one.union(other));
                        assert(self.free_bytes().union(joined) =~= before.free_bytes().union(one));
                    }
                    cur = merged;
                    level += 1;
                } else {
                    self.set_bit(cur, level);
                    proof {
                        assert(!before.free_blocks().contains(
                            (level as int, buddy.0 as int),
                        ));
                        assert(self.free_blocks() =~= before.free_blocks().insert(
                            (level as int, cur.0 as int),
                        ));
                        Self::lemma_bytes_after_insert(
                            &before,
                            self,
                            level as int,
                            cur.0 as int,
                        );
                    }
                    return ;
                }
            } else {
                self.set_bit(cur, level);
                proof {
                    assert(self.free_blocks() =~= before.free_blocks().insert(
                        (level as int, cur.0 as int),
                    ));
                    Self::lemma_bytes_after_insert(&before, self, level as int, cur.0 as int);
                }
                return ;
            }
        }
    }

    /// The bitmaps of the ten size classes for a managed range of `span`
    /// bytes, all clear; the space that they need is taken from the free
    /// regions.
    fn make_bitmaps(bootstrap: &mut BootstrapAlloc, span: u64) -> (r: Result<Vec<Bitmap>, InitError>)
        requires
            sorted_regions(old(bootstrap).memory_ranges@),
            aligned_regions(old(bootstrap).memory_ranges@),
        ensures
            match r {
                Ok(buddies) => {
                    &&& buddies@.len() == 10
                    &&& forall|o: int|
                        0 <= o < 10 ==> {
                            &&& (#[trigger] buddies@[o]).wf()
                            &&& (span as int) / block_size(o) <= buddies@[o]@.len()
                            &&& buddies@[o]@.len() <= 0x40_0000_0000_0000
                            &&& forall|i: int| 0 <= i < buddies@[o]@.len() ==> !buddies@[o]@[i]
                        }
                    &&& carve_bitmaps(old(bootstrap).memory_ranges@, span as int, 0) == Ok::<
                        Seq<MemoryRegion>,
                        InitError,
                    >(final(bootstrap).memory_ranges@)
                    &&& sorted_regions(final(bootstrap).memory_ranges@)
                    &&& aligned_regions(final(bootstrap).memory_ranges@)
                    &&& final(bootstrap).memory_ranges@.len() == old(bootstrap).memory_ranges@.len()
                    &&& forall|i: int|
                        0 <= i < old(bootstrap).memory_ranges@.len() ==> {
                            &&& (#[trigger] final(bootstrap).memory_ranges@[i]).end() == old(
                                bootstrap,
                            ).memory_ranges@[i].end()
                            &&& final(bootstrap).memory_ranges@[i].base.0 >= old(
                                bootstrap,
                            ).memory_ranges@[i].base.0
                        }
                },
                Err(e) => carve_bitmaps(old(bootstrap).memory_ranges@, span as int, 0) == Err::<
                    Seq<MemoryRegion>,
                    InitError,
                >(e),
            },
    {
        let ghost initial = bootstrap.memory_ranges@;
        let mut buddies: Vec<Bitmap> = Vec::new();
        let mut order: usize = 0;
        while order < ORDER_COUNT
            invariant
                order <= 10,
                buddies@.len() == order,
                initial == old(bootstrap).memory_ranges@,
                sorted_regions(bootstrap.memory_ranges@),
                aligned_regions(bootstrap.memory_ranges@),
                bootstrap.memory_ranges@.len() == initial.len(),
                forall|i: int|
                    0 <= i < initial.len() ==> (#[trigger] bootstrap.memory_ranges@[i]).end()
                        == initial[i].end() && bootstrap.memory_ranges@[i].base.0
                        >= initial[i].base.0,
                carve_bitmaps(bootstrap.memory_ranges@, span as int, order as int)
                    == carve_bitmaps(initial, span as int, 0),
                forall|o: int|
                    0 <= o < order ==> {
                        &&& (#[trigger] buddies@[o]).wf()
                        &&& (span as int) / block_size(o) <= buddies@[o]@.len()
                        &&& buddies@[o]@.len() <= 0x40_0000_0000_0000
                        &&& forall|i: int| 0 <= i < buddies@[o]@.len() ==> !buddies@[o]@[i]
                    },
            decreases 10 - order,
        {
            let ghost before = bootstrap.memory_ranges@;
            let bitmap = match make_bitmap(bootstrap, span, order) {
                Ok(bitmap) => bitmap,
                Err(e) => {
                    return Err(e);
                },
            };
            proof {
                assert forall|i: int| 0 <= i < initial.len() implies (
                #[trigger] bootstrap.memory_ranges@[i]).end() == initial[i].end()
                    && bootstrap.memory_ranges@[i].base.0 >= initial[i].base.0 by {
                    assert(before[i].end() == initial[i].end());
                }
            }
            buddies.push(bitmap);
            order += 1;
        }
        Ok(buddies)
    }

    /// An allocator over the range from `base` up to `end` in which nothing
    /// is free.
    fn with_bitmaps(buddies: Vec<Bitmap>, base: PhysAddr, end: PhysAddr) -> (r: Self)
        requires
            base.0 <= end.0,
            buddies@.len() == 10,
            forall|o: int|
                0 <= o < 10 ==> {
                    &&& (#[trigger] buddies@[o]).wf()
                    &&& (end.0 - base.0) / block_size(o) <= buddies@[o]@.len()
                    &&& buddies@[o]@.len() <= 0x40_0000_0000_0000
                    &&& forall|i: int| 0 <= i < buddies@[o]@.len() ==> !buddies@[o]@[i]
                },
        ensures
            r.wf(),
            r.base == base,
            r.end == end,
            r.size == 0,
            r.free_pages() == 0,
            forall|o: int, a: int| !r.is_free(o, a),
    {
        let free: Vec<u64> = vec![0, 0, 0, 0, 0, 0, 0, 0, 0, 0];
        let this = Self { buddies, free, base, end, size: 0 };
        proof {
            assert forall|o: int| 0 <= o < 10 implies {
                &&& (#[trigger] this.buddies@[o]).wf()
                &&& (this.end.0 - this.base.0) / block_size(o) <= this.buddies@[o]@.len()
                &&& this.buddies@[o]@.len() <= 0x40_0000_0000_0000
                &&& this.free@[o] == count_true(this.buddies@[o]@)
            } by {
                lemma_count_true_zero(this.buddies@[o]@);
            }
            assert forall|o: int, a: int| !this.is_free(o, a) by {
                if this.valid_block(o, a) {
                    lemma_index_bound(
                        this.base.0 as int,
                        this.end.0 as int,
                        block_size(o),
                        a,
                    );
                }
            }
        }
        this
    }

    /// Marks the regions free, in their order, and returns their total size.
    fn insert_regions(&mut self, regions: &Vec<MemoryRegion>) -> (total: u64)
        requires
            old(self).wf(),
            forall|o: int, a: int| !old(self).is_free(o, a),
            old(self).free_pages() == 0,
            regions@.len() > 0,
            sorted_regions(regions@),
            aligned_regions(regions@),
            old(self).base.0 <= regions@[0].base.0,
            regions@.last().end() == old(self).end.0,
        ensures
            final(self).wf(),
            final(self).base == old(self).base,
            final(self).end == old(self).end,
            final(self).size == old(self).size,
            final(self).free_bytes() == regions_bytes(regions@),
            final(self).free_blocks() == regions_blocks(regions@),
            total == total_size(regions@),
            final(self).free_pages() * 4096 == total,
    {
        let ghost ranges = regions@;
        let ghost base = self.base;
        let n = regions.len();
        let mut total: u64 = 0;
        let mut k: usize = 0;
        proof {
            assert(self.free_bytes() =~= regions_bytes(ranges.subrange(0, 0)));
            assert(self.free_blocks() =~= regions_blocks(ranges.subrange(0, 0)));
        }
        while k < n
            invariant
                k <= n,
                n == ranges.len(),
                n > 0,
                ranges == regions@,
                sorted_regions(ranges),
                aligned_regions(ranges),
                self.wf(),
                self.base == base,
                self.base == old(self).base,
                self.end == old(self).end,
                self.size == old(self).size,
                base.0 <= ranges[0].base.0,
                ranges.last().end() == self.end.0,
                forall|o: int, a: int| #[trigger]
                    self.is_free(o, a) ==> a + block_size(o) <= (if k == 0 {
                        base.0 as int
                    } else {
                        ranges[k - 1].end()
                    }),
                self.free_bytes() == regions_bytes(ranges.subrange(0, k as int)),
                self.free_blocks() == regions_blocks(ranges.subrange(0, k as int)),
                total == total_size(ranges.subrange(0, k as int)),
                self.free_pages() * 4096 == total,
                total <= (if k == 0 {
                    base.0 as int
                } else {
                    ranges[k - 1].end()
                }) - base.0,
            decreases n - k,
        {
            let region = regions[k];
            proof {
                assert(region.page_aligned());
                if k > 0 {
                    assert(ranges[k - 1].end() <= ranges[k as int].base.0);
                    assert(ranges[0].end() <= ranges[k as int].base.0);
                    assert(ranges[0].page_aligned());
                }
                if k + 1 < n {
                    assert(ranges[k as int].end() <= ranges[n - 1].base.0);
                    assert(ranges[n - 1].page_aligned());
                }
                assert((region.base.0 + region.size) % 4096 == 0) by (nonlinear_arith)
                    requires
                        region.base.0 % 4096 == 0,
                        region.size % 4096 == 0,
                ;
            }
            self.insert_range(region.base, PhysAddr::new(region.base.0 + region.size));
            total = total + region.size;
            proof {
                let done = ranges.subrange(0, k as int);
                let more = ranges.subrange(0, k as int + 1);
                assert(more =~= done.push(region));
                assert(more.drop_last() =~= done);
                lemma_regions_bytes_push(done, region);
            }
            k += 1;
        }
        proof {
            assert(ranges.subrange(0, n as int) =~= ranges);
        }
        total
    }

    /// Nothing but the recorded total depends on the recorded total.
    proof fn lemma_size_is_free(a: &Self, b: &Self)
        requires
            a.wf(),
            a.buddies == b.buddies,
            a.free == b.free,
            a.base == b.base,
            a.end == b.end,
        ensures
            b.wf(),
            b.free_bytes() == a.free_bytes(),
            b.free_blocks() == a.free_blocks(),
            b.free_pages() == a.free_pages(),
            forall|o: int, x: int| b.is_free(o, x) == a.is_free(o, x),
    {
        assert forall|o: int, x: int| b.is_free(o, x) == a.is_free(o, x) by {
            assert(b.bit(o, b.bit_index(o, x)) == a.bit(o, a.bit_index(o, x)));
        }
        assert forall|o: int, i: int|
            0 <= o < 10 && 0 <= i < b.buddies@[o]@.len() && #[trigger] b.bit(o, i) implies b.valid_block(
            o,
            b.bit_addr(o, i),
        ) by {
            assert(a.bit(o, i));
            assert(a.valid_block(o, a.bit_addr(o, i)));
        }
        assert forall|o1: int, a1: int, o2: int, a2: int|
            #[trigger] b.is_free(o1, a1) && #[trigger] b.is_free(o2, a2) && (o1, a1) != (
                o2,
                a2,
            ) implies blocks_disjoint(o1, a1, o2, a2) by {
            assert(a.is_free(o1, a1) && a.is_free(o2, a2));
        }
        assert(b.free_bytes() =~= a.free_bytes());
        assert(b.free_blocks() =~= a.free_blocks());
    }

    /// Construct a new buddy allocator from a memory map. The space for the
    /// descriptions of the free regions is taken from the map itself, the
    /// bitmaps of the ten size classes are taken from the free regions, and
    /// what is left of the regions is the free memory.
    pub fn new(mem_map: &mut Vec<MemoryMapEntry>) -> (r: Result<Self, InitError>)
        ensures
            match r {
                Ok(a) => {
                    &&& boot_regions(old(mem_map)@) is Ok
                    &&& Some(final(mem_map)@) == reserved_entries(old(mem_map)@)
                    &&& a.wf()
                    &&& a.base_addr() == normalize(final(mem_map)@)[0].base.0
                    &&& a.end_addr() == normalize(final(mem_map)@).last().end()
                    &&& a.free_bytes() == regions_bytes(boot_regions(old(mem_map)@)->Ok_0)
                    &&& a.free_blocks() == regions_blocks(boot_regions(old(mem_map)@)->Ok_0)
                    &&& a.managed_bytes() == total_size(boot_regions(old(mem_map)@)->Ok_0)
                    &&& a.free_pages() * 4096 == a.managed_bytes()
                },
                Err(e) => boot_regions(old(mem_map)@) == Err::<Seq<MemoryRegion>, InitError>(e),
            },
            reserved_entries(old(mem_map)@) is None ==> final(mem_map)@ == old(mem_map)@,
            reserved_entries(old(mem_map)@) is Some ==> Some(final(mem_map)@) == reserved_entries(
                old(mem_map)@,
            ),
    {
        if !reserve_descriptor_space(mem_map) {
            return Err(InitError::NoMetadataRegion);
        }
        let regions = collect_regions(mem_map);
        proof {
            lemma_normalize_aligned(mem_map@);
        }
        if regions.len() == 0 {
            return Err(InitError::NoUsableMemory);
        }
        if !regions_in_order(&regions) {
            return Err(InitError::UnsortedMemoryMap);
        }
        let base = regions[0].base;
        let last = regions[regions.len() - 1];
        assert(last.page_aligned());
        assert(regions@[0].page_aligned());
        assert(regions@[0].end() <= last.end());
        let end = PhysAddr::new(last.base.0 + last.size);
        let span = end.0 - base.0;
        let ghost initial = regions@;
        let mut bootstrap = BootstrapAlloc::new(regions);
        let buddies = match Self::make_bitmaps(&mut bootstrap, span) {
            Ok(buddies) => buddies,
            Err(e) => {
                return Err(e);
            },
        };
        let mut this = Self::with_bitmaps(buddies, base, end);
        assert(bootstrap.memory_ranges@[0].base.0 >= initial[0].base.0);
        assert(bootstrap.memory_ranges@.last().end() == initial.last().end());
        let total = this.insert_regions(&bootstrap.memory_ranges);
        let ghost filled = this;
        this.size = total;
        proof {
            Self::lemma_size_is_free(&filled, &this);
        }
        Ok(this)
    }
}

/// The smallest size class whose blocks hold `size` bytes.
pub open spec fn order_of_size(size: int) -> int
    recommends
        size <= 0x20_0000,
{
    if size <= 0x1000 {
        0
    } else if size <= 0x2000 {
        1
    } else if size <= 0x4000 {
        2
    } else if size <= 0x8000 {
        3
    } else if size <= 0x1_0000 {
        4
    } else if size <= 0x2_0000 {
        5
    } else if size <= 0x4_0000 {
        6
    } else if size <= 0x8_0000 {
        7
    } else if size <= 0x10_0000 {
        8
    } else {
        9
    }
}

/// A source of 4 KiB frames of physical memory. An implementation hands out
/// only frames that were free, and each of them to one caller at a time.
pub trait FrameAllocator {
    /// The allocator is ready for use.
    spec fn ready(&self) -> bool;

    /// The addresses of the bytes that are free.
    spec fn unused_bytes(&self) -> Set<int>;

    /// The number of frames that can still be handed out.
    spec fn unused_frames(&self) -> int;

    /// The first address under management and the address after the last.
    spec fn managed_range(&self) -> (int, int);

    /// The frame can be handed back.
    spec fn returnable(&self, frame: Frame) -> bool;

    /// Allocate a 4 KiB frame of physical memory. Returns the allocated Frame
    /// or `None` if no free frames are available.
    fn allocate_frame(&mut self) -> (r: Option<Frame>)
        requires
            old(self).ready(),
        ensures
            final(self).ready(),
            final(self).managed_range() == old(self).managed_range(),
            match r {
                Some(frame) => {
                    &&& old(self).unused_frames() > 0
                    &&& frame.start.0 % 4096 == 0
                    &&& old(self).managed_range().0 <= frame.start.0
                    &&& frame.start.0 + 4096 <= old(self).managed_range().1
                    &&& block_bytes(0, frame.start.0 as int).subset_of(old(self).unused_bytes())
                    &&& final(self).unused_bytes() == old(self).unused_bytes().difference(
                        block_bytes(0, frame.start.0 as int),
                    )
                    &&& final(self).unused_frames() == old(self).unused_frames() - 1
                },
                None => {
                    &&& old(self).unused_frames() == 0
                    &&& final(self).unused_bytes() == old(self).unused_bytes()
                    &&& final(self).unused_frames() == 0
                },
            },
    ;

    /// Deallocate the given frame of physical memory.
    fn deallocate_frame(&mut self, frame: Frame)
        requires
            old(self).ready(),
            old(self).returnable(frame),
        ensures
            final(self).ready(),
            final(self).managed_range() == old(self).managed_range(),
            final(self).unused_bytes() == old(self).unused_bytes().union(
                block_bytes(0, frame.start.0 as int),
            ),
            final(self).unused_frames() == old(self).unused_frames() + 1,
    ;
}

/// The frame allocator of the kernel: a buddy allocator that is handed from
/// caller to caller as a whole.
#[derive(Debug)]
pub struct LockedFrameAllocator {
    inner: BuddyFrameAllocator,
}

impl LockedFrameAllocator {
    /// The buddy allocator inside.
    pub closed spec fn view(&self) -> BuddyFrameAllocator {
        self.inner
    }

    /// Create a new unitialized locked frame allocator: it manages no memory
    /// until it is initialized with [`init()`](LockedFrameAllocator::init).
    pub fn new() -> (r: Self)
        ensures
            r@.wf(),
            r@.base_addr() == 0,
            r@.end_addr() == 0,
            r@.managed_bytes() == 0,
            r@.free_pages() == 0,
            forall|o: int, a: int| !r@.is_free(o, a),
    {
        let mut buddies: Vec<Bitmap> = Vec::new();
        let mut i: usize = 0;
        while i < ORDER_COUNT
            invariant
                i <= 10,
                buddies@.len() == i,
                forall|o: int| 0 <= o < i ==> (#[trigger] buddies@[o]).wf() && buddies@[o]@.len() == 0,
            decreases 10 - i,
        {
            buddies.push(Bitmap::empty());
            i += 1;
        }
        Self { inner: BuddyFrameAllocator::with_bitmaps(buddies, PhysAddr::null(), PhysAddr::null()) }
    }

    /// Initialize the frame allocator with the memory map handed over at
    /// boot. On an error the allocator is as it was.
    pub fn init(&mut self, mem_map: &mut Vec<MemoryMapEntry>) -> (r: Result<(), InitError>)
        ensures
            match r {
                Ok(()) => {
                    &&& boot_regions(old(mem_map)@) is Ok
                    &&& final(self)@.wf()
                    &&& final(self)@.base_addr() == normalize(final(mem_map)@)[0].base.0
                    &&& final(self)@.end_addr() == normalize(final(mem_map)@).last().end()
                    &&& final(self)@.free_bytes() == regions_bytes(
                        boot_regions(old(mem_map)@)->Ok_0,
                    )
                    &&& final(self)@.free_blocks() == regions_blocks(
                        boot_regions(old(mem_map)@)->Ok_0,
                    )
                    &&& final(self)@.managed_bytes() == total_size(
                        boot_regions(old(mem_map)@)->Ok_0,
                    )
                    &&& final(self)@.free_pages() * 4096 == final(self)@.managed_bytes()
                },
                Err(e) => {
                    &&& boot_regions(old(mem_map)@) == Err::<Seq<MemoryRegion>, InitError>(e)
                    &&& final(self)@ == old(self)@
                },
            },
            reserved_entries(old(mem_map)@) is None ==> final(mem_map)@ == old(mem_map)@,
            reserved_entries(old(mem_map)@) is Some ==> Some(final(mem_map)@) == reserved_entries(
                old(mem_map)@,
            ),
    {
        match BuddyFrameAllocator::new(mem_map) {
            Ok(allocator) => {
                self.inner = allocator;
                Ok(())
            },
            Err(e) => Err(e),
        }
    }

    /// Allocate `size` bytes in physical memory: a block of the smallest
    /// size class that holds them. Returns `None` if there isn't enough
    /// available space.
    pub fn alloc_bytes(&mut self, size: u64) -> (r: Option<PhysAddr>)
        requires
            old(self)@.wf(),
            size <= 0x20_0000,
        ensures
            final(self)@.wf(),
            final(self)@.same_range(&old(self)@),
            BuddyFrameAllocator::takes_lowest(
                &old(self)@,
                &final(self)@,
                order_of_size(size as int),
                r,
            ),
            match r {
                Some(p) => {
                    &&& old(self)@.valid_block(order_of_size(size as int), p.0 as int)
                    &&& block_bytes(order_of_size(size as int), p.0 as int).subset_of(
                        old(self)@.free_bytes(),
                    )
                    &&& final(self)@.free_bytes() == old(self)@.free_bytes().difference(
                        block_bytes(order_of_size(size as int), p.0 as int),
                    )
                    &&& final(self)@.free_pages() == old(self)@.free_pages() - block_pages(
                        order_of_size(size as int),
                    )
                },
                None => {
                    &&& forall|o: int, a: int|
                        order_of_size(size as int) <= o ==> !#[trigger] old(self)@.is_free(o, a)
                    &&& final(self)@.free_blocks() == old(self)@.free_blocks()
                    &&& final(self)@.free_bytes() == old(self)@.free_bytes()
                    &&& final(self)@.free_pages() == old(self)@.free_pages()
                },
            },
    {
        let order = Self::order_from_size(size);
        let r = self.inner.allocate_frame(order);
        proof {
            if r.is_none() {
                assert(self@.free_blocks() =~= old(self)@.free_blocks());
            }
        }
        r
    }

    /// Deallocate `size` bytes starting from `addr`: the block of the
    /// smallest size class that holds `size` bytes. The block must have been
    /// allocated and not returned since.
    pub fn dealloc(&mut self, addr: PhysAddr, size: u64)
        requires
            old(self)@.wf(),
            size <= 0x20_0000,
            old(self)@.valid_block(order_of_size(size as int), addr.0 as int),
            forall|o: int, a: int| #[trigger]
                old(self)@.is_free(o, a) ==> blocks_disjoint(
                    order_of_size(size as int),
                    addr.0 as int,
                    o,
                    a,
                ),
        ensures
            final(self)@.wf(),
            final(self)@.same_range(&old(self)@),
            final(self)@.free_blocks() == coalesce(
                old(self)@.free_blocks(),
                order_of_size(size as int),
                addr.0 as int,
            ),
            final(self)@.free_bytes() == old(self)@.free_bytes().union(
                block_bytes(order_of_size(size as int), addr.0 as int),
            ),
            final(self)@.free_pages() == old(self)@.free_pages() + block_pages(
                order_of_size(size as int),
            ),
    {
        let order = Self::order_from_size(size);
        self.inner.deallocate_frame(addr, order);
    }

    /// The smallest size class whose blocks hold `size` bytes. No class holds
    /// more than 2 MiB.
    pub fn order_from_size(size: u64) -> (r: usize)
        requires
            size <= 0x20_0000,
        ensures
            r == order_of_size(size as int),
            r < 10,
            block_size(r as int) >= size,
            r > 0 ==> block_size(r - 1) < size,
    {
        let mut i: usize = 0;
        while i < ORDER_COUNT - 1
            invariant
                i <= 9,
                size <= 0x20_0000,
                i > 0 ==> block_size(i - 1) < size,
            decreases 9 - i,
        {
            if buddy_size(i) >= size {
                return i;
            }
            i += 1;
        }
        assert(block_size(8) < size);
        i
    }

    /// The number of bytes that were free when the allocator was initialized.
    pub fn total_memory(&self) -> (r: u64)
        ensures
            r == self@.managed_bytes(),
    {
        self.inner.size
    }
}

impl FrameAllocator for LockedFrameAllocator {
    open spec fn ready(&self) -> bool {
        self@.wf()
    }

    open spec fn unused_bytes(&self) -> Set<int> {
        self@.free_bytes()
    }

    open spec fn unused_frames(&self) -> int {
        self@.free_pages()
    }

    open spec fn managed_range(&self) -> (int, int) {
        (self@.base_addr(), self@.end_addr())
    }

    open spec fn returnable(&self, frame: Frame) -> bool {
        &&& self@.valid_block(0, frame.start.0 as int)
        &&& forall|o: int, a: int| #[trigger]
            self@.is_free(o, a) ==> blocks_disjoint(0, frame.start.0 as int, o, a)
    }

    fn allocate_frame(&mut self) -> (r: Option<Frame>) {
        proof {
            self@.lemma_free_pages_zero();
        }
        match self.alloc_bytes(4096) {
            Some(addr) => Some(Frame::containing_addr(addr)),
            None => {
                proof {
                    assert forall|o: int, a: int| !old(self)@.is_free(o, a) by {
                        if old(self)@.is_free(o, a) {
                            old(self)@.lemma_free_is_valid(o, a);
                        }
                    }
                }
                None
            },
        }
    }

    fn deallocate_frame(&mut self, frame: Frame) {
        self.dealloc(frame.start_addr(), 4096);
    }
}

/// The number of bytes that were free when the frame allocator was
/// initialized.
pub fn total_memory(allocator: &LockedFrameAllocator) -> (r: u64)
    ensures
        r == allocator@.managed_bytes(),
{
    allocator.total_memory()
}

} // verus!
