//! Physical and virtual memory management.

use vstd::prelude::*;

use crate::arch::x86_64::paging::page_table::{PageTableFlags, HUGE_PAGE, PRESENT};
use crate::arch::x86_64::paging::{
    closed, map_effect, misplaced_huge, page_frame, regular, translation, unmap_effect, PageMap,
};
use addr::{PhysAddr, VirtAddr};
use frame::{Frame, FrameError, LockedFrameAllocator};
use page::Page;
use physical::PhysicalMemory;

pub mod addr;
pub mod bitmap;
pub mod bootstrap;
pub mod frame;
pub mod heap;
pub mod memmap;
pub mod ownership;
pub mod page;
pub mod physical;

verus! {

/// A page size, as a number of bytes and a printable name.
pub trait PageSize: Copy {
    /// The size of a page in bytes.
    const SIZE: u64;
    /// The name of the size.
    const SIZE_STR: &'static str;
}

/// The 4 KiB page size.
#[derive(Debug, Clone, Copy)]
pub enum PageSize4K {
    /// The only value of the tag.
    Size4KiB,
}

impl PageSize for PageSize4K {
    const SIZE: u64 = 4096;
    const SIZE_STR: &'static str = "4KiB";
}

/// Why a page could not be mapped.
#[derive(Debug, Clone, Copy, PartialEq, Eq, Structural)]
pub enum MapError {
    /// Failed to allocate space for a page-frame mapping
    AllocationFailed,
    /// Attempted to map an already mapped frame.
    PageAlreadyMapped(Frame),
}

/// Why a page could not be unmapped.
#[derive(Debug, Clone, Copy, PartialEq, Eq, Structural)]
pub enum UnmapError {
    /// A large page lies where the page's table or its entry would be.
    ParentEntryHugePage,
    /// Attempting to unmap an already unmapped page.
    PageNotMapped,
}

/// A trait for common virtual memory operations on the tree of page tables
/// whose table of level 4 lies at [`table`](VirtualMemoryManager::table).
pub trait VirtualMemoryManager {
    /// The address of the table of level 4.
    spec fn table(&self) -> int;

    /// Translate a single virtual address to a physical address. Returns
    /// `None` if the virtual address is unmapped.
    fn translate_addr(&self, mem: &PhysicalMemory, addr: VirtAddr) -> (r: Option<PhysAddr>)
        requires
            mem.wf(),
            closed(*mem, self.table()),
            !misplaced_huge(*mem, self.table(), addr.0),
        ensures
            match r {
                Some(p) => translation(*mem, self.table(), addr.0) == Some(p.0 as int),
                None => translation(*mem, self.table(), addr.0).is_none(),
            },
    ;

    /// Translate a page to a physical frame.
    ///
    /// # Errors
    /// - Returns [`FrameError::FrameNotPresent`] if the page is unmapped.
    /// - Returns [`FrameError::HugePageNotSupported`] if the page is a large page.
    fn translate_page(&self, mem: &PhysicalMemory, page: Page) -> (r: Result<Frame, FrameError>)
        requires
            mem.wf(),
            closed(*mem, self.table()),
        ensures
            r == page_frame(*mem, self.table(), page.start.0),
    ;

    /// Map a page of virtual memory to a physical frame, returning the newly
    /// mapped frame.
    ///
    /// # Errors
    /// Returns [`MapError`] if an error is encounted during mapping.
    fn map_page(
        &self,
        mem: &mut PhysicalMemory,
        frames: &mut LockedFrameAllocator,
        page: Page,
        frame: Frame,
        flags: PageTableFlags,
    ) -> (r: Result<Frame, MapError>)
        requires
            PageMap::wf_root(self.table(), *old(mem), *old(frames)),
            regular(*old(mem), self.table(), page.start.0),
            frame.start.0 % 4096 == 0,
            flags.valid(),
            flags.has(PRESENT),
            !flags.has(HUGE_PAGE),
        ensures
            PageMap::wf_root(self.table(), *final(mem), *final(frames)),
            map_effect(
                self.table(),
                *old(mem),
                old(frames)@,
                *final(mem),
                final(frames)@,
                page.start.0,
                frame,
                flags,
                r,
            ),
    ;

    /// Unmap a page of virtual memory, returning the frame that was just
    /// unmapped.
    ///
    /// # Errors
    /// Returns [`UnmapError`] if an error is encounted while unmapping.
    fn unmap_page(&self, mem: &mut PhysicalMemory, page: Page) -> (r: Result<Frame, UnmapError>)
        requires
            old(mem).wf(),
            closed(*old(mem), self.table()),
        ensures
            final(mem).wf(),
            unmap_effect(self.table(), *old(mem), *final(mem), page.start.0, r),
    ;
}

} // verus!
