//! Pages of virtual memory.

use vstd::prelude::*;

use super::addr::{lemma_block_sizes_are_pow2, VirtAddr};

verus! {

/// A representation of a page: 4 KiB of virtual memory.
#[derive(Debug, Clone, Copy, PartialEq, Eq, Structural)]
pub struct Page {
    /// The start address of the page, aligned to the page size.
    pub start: VirtAddr,
}

impl Page {
    /// Construct the page containing `addr`.
    pub fn containing_addr(addr: VirtAddr) -> (r: Self)
        ensures
            r.start.0 == addr.0 - addr.0 % 4096,
            r.start.0 % 4096 == 0,
    {
        proof {
            lemma_block_sizes_are_pow2();
        }
        Self { start: addr.align_down(4096) }
    }

    /// The first address of the page.
    pub fn start_addr(self) -> (r: VirtAddr)
        ensures
            r == self.start,
    {
        self.start
    }
}

} // verus!
