//! Heap allocation: the pages of the kernel heap are mapped to fresh frames.

use vstd::prelude::*;

use super::addr::VirtAddr;
use super::frame::{block_bytes, Frame, FrameError, LockedFrameAllocator};
use super::page::Page;
use super::physical::PhysicalMemory;
use super::MapError;
use crate::arch::x86_64::paging::page_table::{
    lemma_entry_facts, lemma_entry_with, PageTableFlags, PRESENT, WRITEABLE,
};
use crate::arch::x86_64::paging::{
    entry_at, index_at, lemma_translation_by_entries, mapped_entry, missing_tables, page_frame,
    regular, same_prefix, table_at, translation, PageMap,
};

verus! {

/// The first virtual address of the kernel heap.
pub const HEAP_START: u64 = 0xFFFF_FE80_0000_0000;

/// The size of the kernel heap in bytes: 8 MiB.
pub const HEAP_SIZE: u64 = 0x80_0000;

/// The number of pages of the kernel heap.
pub const HEAP_PAGES: u64 = 2048;

/// The first address of page `k` of the kernel heap.
pub open spec fn heap_page(k: int) -> u64 {
    (HEAP_START + 4096 * k) as u64
}

/// The address shares its four indices with one of the first `k` pages of the
/// kernel heap.
pub open spec fn in_heap_pages(w: u64, k: int) -> bool {
    exists|j: int| 0 <= j < k && same_prefix(w, #[trigger] heap_page(j), 0)
}

/// Page `k` is the first page of the kernel heap that is mapped, and it is
/// mapped to `frame`.
pub open spec fn first_mapped(mem: PhysicalMemory, root: int, k: int, frame: Frame) -> bool {
    &&& page_frame(mem, root, heap_page(k)) == Ok::<Frame, FrameError>(frame)
    &&& forall|j: int| 0 <= j < k ==> (#[trigger] page_frame(mem, root, heap_page(j))) is Err
}

/// Two pages of the kernel heap differ in their index of level 1 or in that
/// of level 2.
proof fn lemma_heap_pages_apart(j: u64, k: u64)
    by (bit_vector)
    requires
        j < 2048,
        k < 2048,
        j != k,
    ensures
        ((((0xFFFF_FE80_0000_0000u64 + 4096 * j) as u64) >> 12) & 0x1ff) != ((((
        0xFFFF_FE80_0000_0000u64 + 4096 * k) as u64) >> 12) & 0x1ff) || ((((
        0xFFFF_FE80_0000_0000u64 + 4096 * j) as u64) >> 21) & 0x1ff) != ((((
        0xFFFF_FE80_0000_0000u64 + 4096 * k) as u64) >> 21) & 0x1ff),
{
}

/// No two pages of the kernel heap share their four indices.
pub proof fn lemma_heap_pages_differ(j: int, k: int)
    requires
        0 <= j < 2048,
        0 <= k < 2048,
        j != k,
    ensures
        !same_prefix(heap_page(j), heap_page(k), 0),
{
    lemma_heap_pages_apart(j as u64, k as u64);
}

/// Initialize the heap: every page of the kernel heap is mapped, present and
/// writeable, to a frame of its own that is taken from the free memory.
///
/// # Errors
/// - Returns [`MapError::AllocationFailed`] if the free memory runs out.
/// - Returns [`MapError::PageAlreadyMapped`] with the frame of the first page
///   of the heap that is mapped already.
pub fn init_heap(
    mapper: &PageMap,
    mem: &mut PhysicalMemory,
    frames: &mut LockedFrameAllocator,
) -> (r: Result<(), MapError>)
    requires
        mapper.wf(*old(mem), *old(frames)),
        forall|k: int| 0 <= k < 2048 ==> regular(*old(mem), mapper.root(), #[trigger] heap_page(k)),
    ensures
        mapper.wf(*final(mem), *final(frames)),
        final(mem).base_addr() == old(mem).base_addr(),
        final(mem).end_addr() == old(mem).end_addr(),
        final(frames)@.same_range(&old(frames)@),
        final(frames)@.free_bytes().subset_of(old(frames)@.free_bytes()),
        forall|w: u64|
            regular(*old(mem), mapper.root(), w) ==> #[trigger] regular(
                *final(mem),
                mapper.root(),
                w,
            ),
        forall|w: u64|
            !in_heap_pages(w, 2048) ==> #[trigger] translation(*final(mem), mapper.root(), w)
                == translation(*old(mem), mapper.root(), w),
        forall|w: u64|
            !in_heap_pages(w, 2048) ==> #[trigger] page_frame(*final(mem), mapper.root(), w)
                == page_frame(*old(mem), mapper.root(), w),
        (forall|k: int|
            0 <= k < 2048 ==> (#[trigger] page_frame(*old(mem), mapper.root(), heap_page(k))) is Err)
            && old(frames)@.free_pages() >= 2054 ==> r is Ok,
        match r {
            Ok(()) => {
                &&& old(frames)@.free_pages() >= 2048
                &&& old(frames)@.free_pages() - 2054 <= final(frames)@.free_pages() <= old(
                    frames,
                )@.free_pages() - 2048
                &&& forall|k: int|
                    0 <= k < 2048 ==> (#[trigger] page_frame(
                        *old(mem),
                        mapper.root(),
                        heap_page(k),
                    )) is Err
                &&& forall|k: int|
                    0 <= k < 2048 ==> (#[trigger] page_frame(
                        *final(mem),
                        mapper.root(),
                        heap_page(k),
                    ) matches Ok(frame) && old(frames)@.free_bytes().contains(frame.start.0 as int)
                        && !final(frames)@.free_bytes().contains(frame.start.0 as int))
            },
            Err(MapError::PageAlreadyMapped(frame)) => exists|k: int|
                0 <= k < 2048 && #[trigger] first_mapped(*old(mem), mapper.root(), k, frame),
            Err(MapError::AllocationFailed) => final(frames)@.free_pages() == 0 && old(
                frames,
            )@.free_pages() < 2054,
        },
{
    let ghost root = mapper.root();
    let ghost mem0 = *mem;
    let ghost free0 = frames@.free_bytes();
    let heap_start_page = Page::containing_addr(VirtAddr::new(HEAP_START));
    let heap_end_page = Page::containing_addr(VirtAddr::new(HEAP_START + HEAP_SIZE));
    assert(0xFFFF_FE80_0000_0000u64 % 4096 == 0 && 0xFFFF_FE80_0080_0000u64 % 4096 == 0)
        by (bit_vector);
    let mut page = heap_start_page;
    let ghost mut k: int = 0;
    proof {
        PageMap::lemma_wf_gives(mapper, *mem, *frames);
        frames@.lemma_free_pages_zero();
    }
    while page.start.0 != heap_end_page.start.0
        invariant
            0 <= k <= 2048,
            page.start.0 == heap_page(k),
            heap_end_page.start.0 == heap_page(2048),
            root == mapper.root(),
            mem0 == *old(mem),
            free0 == old(frames)@.free_bytes(),
            mapper.wf(*mem, *frames),
            mem.base_addr() == old(mem).base_addr(),
            mem.end_addr() == old(mem).end_addr(),
            frames@.same_range(&old(frames)@),
            frames@.free_bytes().subset_of(free0),
            frames@.free_pages() <= old(frames)@.free_pages() - k,
            frames@.free_pages() >= old(frames)@.free_pages() - k - tables_made(k),
            frames@.free_pages() >= 0,
            forall|w: u64| regular(mem0, root, w) ==> #[trigger] regular(*mem, root, w),
            forall|j: int| 0 <= j < 2048 ==> regular(mem0, root, #[trigger] heap_page(j)),
            forall|w: u64|
                !in_heap_pages(w, k) ==> #[trigger] translation(*mem, root, w) == translation(
                    mem0,
                    root,
                    w,
                ),
            forall|w: u64|
                !in_heap_pages(w, k) ==> #[trigger] page_frame(*mem, root, w) == page_frame(
                    mem0,
                    root,
                    w,
                ),
            forall|j: int|
                0 <= j < k ==> (#[trigger] page_frame(mem0, root, heap_page(j))) is Err,
            forall|j: int|
                0 <= j < k ==> (#[trigger] page_frame(*mem, root, heap_page(j)) matches Ok(frame)
                    && free0.contains(frame.start.0 as int) && !frames@.free_bytes().contains(
                    frame.start.0 as int,
                )),
        decreases 2048 - k,
    {
        let ghost v = page.start.0;
        let ghost mem_before = *mem;
        let ghost frames_before = *frames;
        proof {
            assert(!in_heap_pages(v, k)) by {
                if in_heap_pages(v, k) {
                    let j = choose|j: int| 0 <= j < k && same_prefix(v, #[trigger] heap_page(j), 0);
                    lemma_heap_pages_differ(k, j);
                }
            }
            assert(regular(mem0, root, heap_page(k)));
            lemma_heap_indices(k as u64);
            if k > 0 {
                lemma_heap_indices((k - 1) as u64);
                assert(page_frame(mem_before, root, heap_page(k - 1)) is Ok);
                lemma_mapped_neighbour(mem_before, root, v, heap_page(k - 1));
            }
            assert(missing_tables(mem_before, root, v) + tables_made(k) <= tables_made(k + 1));
            assert(tables_made(k + 1) <= 6);
        }
        let step = map_heap_page(mapper, mem, frames, page);
        proof {
            assert forall|w: u64| regular(mem0, root, w) implies #[trigger] regular(
                *mem,
                root,
                w,
            ) by {
                assert(regular(mem_before, root, w));
            }
            assert(page_frame(mem0, root, heap_page(k)) == page_frame(
                mem_before,
                root,
                heap_page(k),
            ));
        }
        match step {
            Ok(()) => {},
            Err(e) => {
                proof {
                    assert forall|w: u64| !in_heap_pages(w, 2048) implies #[trigger] translation(
                        *mem,
                        root,
                        w,
                    ) == translation(mem0, root, w) by {
                        lemma_in_heap_more(w, k, 2048);
                        assert(translation(*mem, root, w) == translation(mem_before, root, w));
                    }
                    assert forall|w: u64| !in_heap_pages(w, 2048) implies #[trigger] page_frame(
                        *mem,
                        root,
                        w,
                    ) == page_frame(mem0, root, w) by {
                        lemma_in_heap_more(w, k, 2048);
                        assert(page_frame(*mem, root, w) == page_frame(mem_before, root, w));
                    }
                    if let MapError::PageAlreadyMapped(frame) = e {
                        assert(first_mapped(mem0, root, k, frame));
                    }
                }
                return Err(e);
            },
        }
        proof {
            assert forall|w: u64| !in_heap_pages(w, k + 1) implies #[trigger] translation(
                *mem,
                root,
                w,
            ) == translation(mem0, root, w) by {
                lemma_in_heap_more(w, k, k + 1);
                assert(!same_prefix(w, heap_page(k), 0));
                assert(translation(mem_before, root, w) == translation(mem0, root, w));
            }
            assert forall|w: u64| !in_heap_pages(w, k + 1) implies #[trigger] page_frame(
                *mem,
                root,
                w,
            ) == page_frame(mem0, root, w) by {
                lemma_in_heap_more(w, k, k + 1);
                assert(!same_prefix(w, heap_page(k), 0));
                assert(page_frame(mem_before, root, w) == page_frame(mem0, root, w));
            }
            assert forall|j: int| 0 <= j < k + 1 implies (#[trigger] page_frame(
                *mem,
                root,
                heap_page(j),
            ) matches Ok(fr) && free0.contains(fr.start.0 as int) && !frames@.free_bytes().contains(
                fr.start.0 as int,
            )) by {
                if j < k {
                    lemma_heap_pages_differ(j, k);
                    assert(page_frame(*mem, root, heap_page(j)) == page_frame(
                        mem_before,
                        root,
                        heap_page(j),
                    ));
                }
            }
            k = k + 1;
        }
        assert(0xFFFF_FE80_0000_0000u64 + 4096 * 2048 < 0xFFFF_FFFF_FFFF_F000u64);
        page = Page::containing_addr(page.start_addr().offset(4096));
    }
    proof {
        assert(k == 2048) by {
            if k < 2048 {
                assert(heap_page(k) != heap_page(2048));
            }
        }
    }
    Ok(())
}

/// Maps one page of the kernel heap, present and writeable, to a frame that
/// is taken from the free memory.
fn map_heap_page(
    mapper: &PageMap,
    mem: &mut PhysicalMemory,
    frames: &mut LockedFrameAllocator,
    page: Page,
) -> (r: Result<(), MapError>)
    requires
        mapper.wf(*old(mem), *old(frames)),
        regular(*old(mem), mapper.root(), page.start.0),
    ensures
        mapper.wf(*final(mem), *final(frames)),
        final(mem).base_addr() == old(mem).base_addr(),
        final(mem).end_addr() == old(mem).end_addr(),
        final(frames)@.same_range(&old(frames)@),
        final(frames)@.free_bytes().subset_of(old(frames)@.free_bytes()),
        final(frames)@.free_pages() >= 0,
        forall|w: u64|
            regular(*old(mem), mapper.root(), w) ==> #[trigger] regular(
                *final(mem),
                mapper.root(),
                w,
            ),
        forall|w: u64|
            !(r is Ok && same_prefix(w, page.start.0, 0)) ==> #[trigger] translation(
                *final(mem),
                mapper.root(),
                w,
            ) == translation(*old(mem), mapper.root(), w),
        forall|w: u64|
            !(r is Ok && same_prefix(w, page.start.0, 0)) ==> #[trigger] page_frame(
                *final(mem),
                mapper.root(),
                w,
            ) == page_frame(*old(mem), mapper.root(), w),
        match r {
            Ok(()) => {
                &&& old(frames)@.free_pages() >= 1
                &&& final(frames)@.free_pages() == old(frames)@.free_pages() - 1 - missing_tables(
                    *old(mem),
                    mapper.root(),
                    page.start.0,
                )
                &&& page_frame(*old(mem), mapper.root(), page.start.0) is Err
                &&& page_frame(*final(mem), mapper.root(), page.start.0) matches Ok(frame)
                    && old(frames)@.free_bytes().contains(frame.start.0 as int)
                    && !final(frames)@.free_bytes().contains(frame.start.0 as int)
            },
            Err(MapError::PageAlreadyMapped(frame)) => page_frame(
                *old(mem),
                mapper.root(),
                page.start.0,
            ) == Ok::<Frame, FrameError>(frame),
            Err(MapError::AllocationFailed) => final(frames)@.free_pages() == 0 && old(
                frames,
            )@.free_pages() < 1 + missing_tables(*old(mem), mapper.root(), page.start.0),
        },
{
    let ghost root = mapper.root();
    let ghost v = page.start.0;
    let ghost mem_before = *mem;
    let ghost frames_before = *frames;
    let flags = PageTableFlags::from_bits_truncate(PRESENT | WRITEABLE);
    assert((1u64 | 2u64) & 0x8000_0000_0000_01FFu64 == 3 && 3u64 & 1 == 1 && 3u64 & 0x80 != 0x80
        && 3u64 & !0x8000_0000_0000_01FFu64 == 0) by (bit_vector);
    proof {
        PageMap::lemma_wf_gives(mapper, *mem, *frames);
        frames@.lemma_free_pages_zero();
    }
    let addr = match frames.alloc_bytes(4096) {
        Some(addr) => addr,
        None => {
            proof {
                PageMap::lemma_wf_shrinks(mapper, *mem, frames_before, *frames);
                assert forall|o: int, a: int| !frames_before@.is_free(o, a) by {
                    if frames_before@.is_free(o, a) {
                        frames_before@.lemma_free_is_valid(o, a);
                    }
                }
            }
            return Err(MapError::AllocationFailed);
        },
    };
    let frame = Frame::containing_addr(addr);
    let ghost frames_taken = *frames;
    proof {
        PageMap::lemma_wf_shrinks(mapper, *mem, frames_before, *frames);
        let f = frame.start.0 as int;
        assert(block_bytes(0, f).contains(f));
        assert(frames_before@.free_bytes().contains(f));
        frames_before@.lemma_free_bytes_in_range(f);
        mem.lemma_bounds();
        assert(!frames_taken@.free_bytes().contains(f));
        lemma_entry_with(frame.start.0, 3);
        frames_taken@.lemma_free_pages_zero();
    }
    match mapper.map_page(mem, frames, page, frame, flags) {
        Ok(_) => {
            proof {
                let m = mapped_entry(frame, flags);
                assert(crate::arch::x86_64::paging::page_table::entry_addr(m) == frame.start.0);
                assert(same_prefix(v, v, 0));
                lemma_unmapped_frame(mem_before, root, v);
                PageMap::lemma_wf_gives(mapper, *mem, *frames);
                frames@.lemma_free_pages_zero();
            }
            Ok(())
        },
        Err(e) => {
            proof {
                PageMap::lemma_wf_gives(mapper, *mem, *frames);
                frames@.lemma_free_pages_zero();
                if e != MapError::AllocationFailed {
                    lemma_regular_frame(mem_before, root, v);
                    assert forall|w: u64| #[trigger]
                        page_frame(*mem, root, w) == page_frame(mem_before, root, w) by {
                        lemma_same_cells_frames(mem_before, *mem, root, w);
                    }
                    assert forall|w: u64| #[trigger]
                        translation(*mem, root, w) == translation(mem_before, root, w) by {
                        lemma_same_cells_frames(mem_before, *mem, root, w);
                    }
                }
            }
            Err(e)
        },
    }
}

/// Memories that hold the same words give the same translations.
proof fn lemma_same_cells_frames(a: PhysicalMemory, b: PhysicalMemory, root: int, w: u64)
    requires
        crate::arch::x86_64::paging::same_cells(a, b),
        crate::arch::x86_64::paging::closed(a, root),
    ensures
        page_frame(b, root, w) == page_frame(a, root, w),
        translation(b, root, w) == translation(a, root, w),
{
    crate::arch::x86_64::paging::lemma_index_range();
    assert forall|level: int| 1 <= level <= 4 implies (#[trigger] table_at(a, root, w, level) matches Some(
        t,
    ) ==> b.entry(t, index_at(w, level)) == a.entry(t, index_at(w, level))) by {
        if table_at(a, root, w, level) is Some {
            assert(a.contains(table_at(a, root, w, level)->Some_0));
        }
    }
    crate::arch::x86_64::paging::lemma_walk_unchanged(a, b, root, w);
}

/// The largest number of tables that mapping the first `k` pages of the
/// kernel heap makes: three for the first page, and one more for each
/// further table of level 1.
pub open spec fn tables_made(k: int) -> int {
    if k <= 0 {
        0
    } else {
        3 + (k - 1) / 512
    }
}

/// The indices of the pages of the kernel heap.
proof fn lemma_heap_indices(k: u64)
    by (bit_vector)
    requires
        k < 2048,
    ensures
        ((((0xFFFF_FE80_0000_0000u64 + 4096 * k) as u64) >> 39) & 0x1ff) == 509,
        ((((0xFFFF_FE80_0000_0000u64 + 4096 * k) as u64) >> 30) & 0x1ff) == 0,
        ((((0xFFFF_FE80_0000_0000u64 + 4096 * k) as u64) >> 21) & 0x1ff) == k / 512,
        ((((0xFFFF_FE80_0000_0000u64 + 4096 * k) as u64) >> 12) & 0x1ff) == k % 512,
{
}

/// Next to a page that is mapped, no table is missing for a page with the
/// same table of level 1, and at most one for a page with the same table of
/// level 2.
proof fn lemma_mapped_neighbour(mem: PhysicalMemory, root: int, v: u64, w: u64)
    requires
        page_frame(mem, root, w) is Ok,
    ensures
        same_prefix(v, w, 1) ==> missing_tables(mem, root, v) == 0,
        same_prefix(v, w, 2) ==> missing_tables(mem, root, v) <= 1,
        missing_tables(mem, root, v) <= 3,
{
    lemma_translation_by_entries(mem, root, w);
    lemma_entry_facts(0);
    assert(table_at(mem, root, v, 4) == Some(root));
    assert(table_at(mem, root, w, 4) == Some(root));
    if same_prefix(v, w, 2) {
        assert(entry_at(mem, root, v, 4) == entry_at(mem, root, w, 4));
        assert(table_at(mem, root, v, 3) == table_at(mem, root, w, 3));
        assert(entry_at(mem, root, v, 3) == entry_at(mem, root, w, 3));
        assert(table_at(mem, root, v, 2) == table_at(mem, root, w, 2));
    }
    if same_prefix(v, w, 1) {
        assert(entry_at(mem, root, v, 2) == entry_at(mem, root, w, 2));
    }
}

/// What shares its indices with one of the first pages shares them with one
/// of more pages.
proof fn lemma_in_heap_more(w: u64, k: int, n: int)
    requires
        0 <= k <= n,
    ensures
        in_heap_pages(w, k) ==> in_heap_pages(w, n),
        n == k + 1 && !in_heap_pages(w, n) ==> !same_prefix(w, heap_page(k), 0) && !in_heap_pages(
            w,
            k,
        ),
{
    if in_heap_pages(w, k) {
        let j = choose|j: int| 0 <= j < k && same_prefix(w, #[trigger] heap_page(j), 0);
        assert(0 <= j < n && same_prefix(w, heap_page(j), 0));
    }
    if n == k + 1 && same_prefix(w, heap_page(k), 0) && k >= 0 {
        assert(0 <= k < n && same_prefix(w, heap_page(k), 0));
    }
}

/// Where every entry on the walk of an address is in use, and each is
/// present without the flag of a large page, the page is mapped to the frame
/// of the last entry.
proof fn lemma_regular_frame(mem: PhysicalMemory, root: int, v: u64)
    requires
        regular(mem, root, v),
        missing_tables(mem, root, v) == 0,
        entry_at(mem, root, v, 1) != Some(0u64),
    ensures
        entry_at(mem, root, v, 1) matches Some(e) && page_frame(mem, root, v) == Ok::<
            Frame,
            FrameError,
        >(Frame { start: super::addr::PhysAddr(crate::arch::x86_64::paging::page_table::entry_addr(e)) }),
{
    lemma_translation_by_entries(mem, root, v);
    assert(table_at(mem, root, v, 4) == Some(root));
    let e4 = entry_at(mem, root, v, 4);
    assert(e4 is Some);
    assert(table_at(mem, root, v, 3) is Some);
    assert(entry_at(mem, root, v, 3) is Some);
    assert(table_at(mem, root, v, 2) is Some);
    assert(entry_at(mem, root, v, 2) is Some);
    assert(table_at(mem, root, v, 1) is Some);
}

/// Where a table is missing on the walk of an address, or the entry of level
/// 1 is unused, the page is not mapped.
proof fn lemma_unmapped_frame(mem: PhysicalMemory, root: int, v: u64)
    requires
        regular(mem, root, v),
        missing_tables(mem, root, v) > 0 || entry_at(mem, root, v, 1) == Some(0u64),
    ensures
        page_frame(mem, root, v) is Err,
{
    lemma_translation_by_entries(mem, root, v);
    lemma_entry_facts(0);
}

} // verus!
