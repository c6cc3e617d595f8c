//! The four-level tree of page tables: translating, mapping and unmapping
//! pages.

use vstd::prelude::*;

use crate::memory::addr::{PhysAddr, VirtAddr};
use crate::memory::frame::{
    block_bytes, BuddyFrameAllocator, Frame, FrameError, LockedFrameAllocator,
};
use crate::memory::page::Page;
use crate::memory::physical::PhysicalMemory;
use crate::memory::{MapError, UnmapError};
use page_table::{
    entry_addr, entry_frame, entry_huge, entry_present, entry_with, lemma_entry_facts,
    lemma_entry_with, lemma_table_entry, PageTableEntry, PageTableFlags, HUGE_PAGE, PRESENT, TABLE_FLAGS,
};

pub mod address_space;
pub mod page_table;

verus! {

/// The index that the virtual address `v` has in the table of `level`: level
/// 4 is the root, level 1 holds the pages.
pub open spec fn index_at(v: u64, level: int) -> int {
    if level >= 4 {
        ((v >> 39) & 0x1ff) as int
    } else if level == 3 {
        ((v >> 30) & 0x1ff) as int
    } else if level == 2 {
        ((v >> 21) & 0x1ff) as int
    } else {
        ((v >> 12) & 0x1ff) as int
    }
}

/// The two addresses have the same index at every level above `level`.
pub open spec fn same_prefix(v: u64, w: u64, level: int) -> bool {
    &&& (level >= 4 || index_at(v, 4) == index_at(w, 4))
    &&& (level >= 3 || index_at(v, 3) == index_at(w, 3))
    &&& (level >= 2 || index_at(v, 2) == index_at(w, 2))
    &&& (level >= 1 || index_at(v, 1) == index_at(w, 1))
}

/// What bounds the indices and offsets of a virtual address.
pub proof fn lemma_index_facts(v: u64)
    by (bit_vector)
    ensures
        (v >> 39) & 0x1ff < 512,
        (v >> 30) & 0x1ff < 512,
        (v >> 21) & 0x1ff < 512,
        (v >> 12) & 0x1ff < 512,
        v & 0xfff < 4096,
        v & 0x1f_ffff < 0x20_0000,
{
}

impl VirtAddr {
    /// The index of the address in the table of level 4.
    pub fn p4_index(self) -> (r: u16)
        ensures
            r == index_at(self.0, 4),
            r < 512,
    {
        proof {
            lemma_index_facts(self.0);
        }
        ((self.0 >> 39) & 0x1ff) as u16
    }

    /// The index of the address in the table of level 3.
    pub fn p3_index(self) -> (r: u16)
        ensures
            r == index_at(self.0, 3),
            r < 512,
    {
        proof {
            lemma_index_facts(self.0);
        }
        ((self.0 >> 30) & 0x1ff) as u16
    }

    /// The index of the address in the table of level 2.
    pub fn p2_index(self) -> (r: u16)
        ensures
            r == index_at(self.0, 2),
            r < 512,
    {
        proof {
            lemma_index_facts(self.0);
        }
        ((self.0 >> 21) & 0x1ff) as u16
    }

    /// The index of the address in the table of level 1.
    pub fn p1_index(self) -> (r: u16)
        ensures
            r == index_at(self.0, 1),
            r < 512,
    {
        proof {
            lemma_index_facts(self.0);
        }
        ((self.0 >> 12) & 0x1ff) as u16
    }

    /// The offset of the address in its page.
    pub fn page_index(self) -> (r: u16)
        ensures
            r == self.0 & 0xfff,
            r < 4096,
    {
        proof {
            lemma_index_facts(self.0);
        }
        (self.0 & 0xfff) as u16
    }
}

/// The table that entry `index` of the table at `table` points to, if the
/// entry is present and maps no large page.
pub open spec fn next_table(mem: PhysicalMemory, table: int, index: int) -> Option<int> {
    let e = mem.entry(table, index);
    if entry_present(e) && !entry_huge(e) {
        Some(entry_addr(e) as int)
    } else {
        None
    }
}

/// The table of `level` that the walk from `root` reaches for the address
/// `v`, if it gets that far.
pub open spec fn table_at(mem: PhysicalMemory, root: int, v: u64, level: int) -> Option<int> {
    if level >= 4 {
        Some(root)
    } else if level == 3 {
        next_table(mem, root, index_at(v, 4))
    } else if level == 2 {
        match next_table(mem, root, index_at(v, 4)) {
            Some(t3) => next_table(mem, t3, index_at(v, 3)),
            None => None,
        }
    } else {
        match next_table(mem, root, index_at(v, 4)) {
            Some(t3) => match next_table(mem, t3, index_at(v, 3)) {
                Some(t2) => next_table(mem, t2, index_at(v, 2)),
                None => None,
            },
            None => None,
        }
    }
}

/// The entry of the table of `level` that the walk from `root` reads for the
/// address `v`, if it gets that far.
pub open spec fn entry_at(mem: PhysicalMemory, root: int, v: u64, level: int) -> Option<u64> {
    match table_at(mem, root, v, level) {
        Some(t) => Some(mem.entry(t, index_at(v, level))),
        None => None,
    }
}

/// The physical address that the virtual address `v` is mapped to: through
/// the entry of level 1, or through an entry of level 2 that maps a large
/// page.
pub open spec fn translation(mem: PhysicalMemory, root: int, v: u64) -> Option<int> {
    match entry_at(mem, root, v, 2) {
        None => None,
        Some(e2) => if !entry_present(e2) {
            None
        } else if entry_huge(e2) {
            Some(entry_addr(e2) + (v & 0x1f_ffff))
        } else {
            let e1 = mem.entry(entry_addr(e2) as int, index_at(v, 1));
            if entry_present(e1) && !entry_huge(e1) {
                Some(entry_addr(e1) + (v & 0xfff))
            } else {
                None
            }
        },
    }
}

/// The frame that the page of the virtual address `v` is mapped to, or why
/// the walk from `root` finds none: the error of the first entry that is not
/// present or maps a large page.
pub open spec fn page_frame(mem: PhysicalMemory, root: int, v: u64) -> Result<Frame, FrameError> {
    let e4 = mem.entry(root, index_at(v, 4));
    match entry_frame(e4) {
        Err(e) => Err(e),
        Ok(f3) => {
            let e3 = mem.entry(f3.start.0 as int, index_at(v, 3));
            match entry_frame(e3) {
                Err(e) => Err(e),
                Ok(f2) => {
                    let e2 = mem.entry(f2.start.0 as int, index_at(v, 2));
                    match entry_frame(e2) {
                        Err(e) => Err(e),
                        Ok(f1) => entry_frame(mem.entry(f1.start.0 as int, index_at(v, 1))),
                    }
                },
            }
        },
    }
}

/// An entry that marks a large page where the walk for `v` cannot use one:
/// at level 4, 3 or 1.
pub open spec fn misplaced_huge(mem: PhysicalMemory, root: int, v: u64) -> bool {
    ||| (entry_at(mem, root, v, 4) matches Some(e) && entry_present(e) && entry_huge(e))
    ||| (entry_at(mem, root, v, 3) matches Some(e) && entry_present(e) && entry_huge(e))
    ||| (entry_at(mem, root, v, 1) matches Some(e) && entry_present(e) && entry_huge(e))
}

/// Every table that a walk from `root` reaches lies in the memory.
pub open spec fn closed(mem: PhysicalMemory, root: int) -> bool {
    forall|v: u64, level: int|
        1 <= level <= 4 ==> (#[trigger] table_at(mem, root, v, level) matches Some(t)
            ==> mem.contains(t))
}

/// No table that a walk from `root` reaches starts in free memory.
pub open spec fn owned(mem: PhysicalMemory, root: int, free: Set<int>) -> bool {
    forall|v: u64, level: int|
        1 <= level <= 4 ==> (#[trigger] table_at(mem, root, v, level) matches Some(t)
            ==> !free.contains(t))
}

/// The tables that the walks from `root` reach form a tree: a table is
/// reached at one level only, and by one sequence of indices only.
pub open spec fn tree(mem: PhysicalMemory, root: int) -> bool {
    forall|v: u64, w: u64, lv: int, lw: int|
        1 <= lv <= 4 && 1 <= lw <= 4 && (#[trigger] table_at(mem, root, v, lv)) is Some
            && table_at(mem, root, v, lv) == #[trigger] table_at(mem, root, w, lw) ==> lv == lw
            && same_prefix(v, w, lv)
}

/// Every entry that the walk for `v` reads is either unused or present
/// without the flag of a large page.
pub open spec fn regular(mem: PhysicalMemory, root: int, v: u64) -> bool {
    forall|level: int|
        1 <= level <= 4 ==> (#[trigger] entry_at(mem, root, v, level) matches Some(e) ==> e == 0
            || (entry_present(e) && !entry_huge(e)))
}

/// The two memories hold the same words.
pub open spec fn same_cells(a: PhysicalMemory, b: PhysicalMemory) -> bool {
    &&& a.base_addr() == b.base_addr()
    &&& a.end_addr() == b.end_addr()
    &&& forall|t: int, i: int|
        #![trigger a.entry(t, i)]
        #![trigger b.entry(t, i)]
        a.contains(t) && 0 <= i < 512 ==> a.entry(t, i) == b.entry(t, i)
}

/// Memories that hold the same words as a third hold the same words.
pub proof fn lemma_same_cells_trans(a: PhysicalMemory, b: PhysicalMemory, c: PhysicalMemory)
    requires
        same_cells(a, b),
        same_cells(b, c),
    ensures
        same_cells(a, c),
{
    assert forall|t: int, i: int|
        #![trigger a.entry(t, i)]
        #![trigger c.entry(t, i)]
        a.contains(t) && 0 <= i < 512 implies a.entry(t, i) == c.entry(t, i) by {
        assert(a.entry(t, i) == b.entry(t, i));
        assert(b.contains(t));
    }
}

/// The number of tables that are missing on the walk for `v`: three if the
/// entry of level 4 is unused, two if that of level 3 is, one if that of
/// level 2 is.
pub open spec fn missing_tables(mem: PhysicalMemory, root: int, v: u64) -> int {
    if entry_at(mem, root, v, 4) == Some(0u64) {
        3
    } else if entry_at(mem, root, v, 3) == Some(0u64) {
        2
    } else if entry_at(mem, root, v, 2) == Some(0u64) {
        1
    } else {
        0
    }
}

/// The entry that links a table to the table at `addr`: present, writeable
/// and open to user mode.
pub open spec fn link_entry(addr: u64) -> u64 {
    entry_with(0, addr, TABLE_FLAGS)
}

/// A walk that reads no changed word reaches the same tables and the same
/// entries.
pub proof fn lemma_walk_unchanged(a: PhysicalMemory, b: PhysicalMemory, root: int, w: u64)
    requires
        forall|level: int|
            1 <= level <= 4 ==> (#[trigger] table_at(a, root, w, level) matches Some(t) ==> b.entry(
                t,
                index_at(w, level),
            ) == a.entry(t, index_at(w, level))),
    ensures
        forall|level: int| 1 <= level <= 4 ==> table_at(b, root, w, level) == table_at(a, root, w, level),
        forall|level: int| 1 <= level <= 4 ==> entry_at(b, root, w, level) == entry_at(a, root, w, level),
        translation(b, root, w) == translation(a, root, w),
        page_frame(b, root, w) == page_frame(a, root, w),
{
    assert(table_at(a, root, w, 4) == Some(root));
    assert(table_at(b, root, w, 3) == table_at(a, root, w, 3));
    assert(table_at(b, root, w, 2) == table_at(a, root, w, 2));
    assert(table_at(b, root, w, 1) == table_at(a, root, w, 1));
    assert(entry_at(b, root, w, 4) == entry_at(a, root, w, 4));
    assert(entry_at(b, root, w, 3) == entry_at(a, root, w, 3));
    assert(entry_at(b, root, w, 2) == entry_at(a, root, w, 2));
    assert(entry_at(b, root, w, 1) == entry_at(a, root, w, 1));
    lemma_translation_by_entries(a, root, w);
    lemma_translation_by_entries(b, root, w);
}

/// The translation and the frame of an address are given by the entries that
/// its walk reads.
pub proof fn lemma_translation_by_entries(mem: PhysicalMemory, root: int, v: u64)
    ensures
        translation(mem, root, v) == match entry_at(mem, root, v, 2) {
            None => None,
            Some(e2) => if !entry_present(e2) {
                None
            } else if entry_huge(e2) {
                Some(entry_addr(e2) + (v & 0x1f_ffff))
            } else {
                match entry_at(mem, root, v, 1) {
                    Some(e1) => if entry_present(e1) && !entry_huge(e1) {
                        Some(entry_addr(e1) + (v & 0xfff))
                    } else {
                        None
                    },
                    None => None,
                }
            },
        },
        page_frame(mem, root, v) == match entry_at(mem, root, v, 4) {
            None => Err(FrameError::FrameNotPresent),
            Some(e4) => match entry_frame(e4) {
                Err(e) => Err(e),
                Ok(_) => match entry_at(mem, root, v, 3) {
                    None => Err(FrameError::FrameNotPresent),
                    Some(e3) => match entry_frame(e3) {
                        Err(e) => Err(e),
                        Ok(_) => match entry_at(mem, root, v, 2) {
                            None => Err(FrameError::FrameNotPresent),
                            Some(e2) => match entry_frame(e2) {
                                Err(e) => Err(e),
                                Ok(_) => match entry_at(mem, root, v, 1) {
                                    None => Err(FrameError::FrameNotPresent),
                                    Some(e1) => entry_frame(e1),
                                },
                            },
                        },
                    },
                },
            },
        },
{
}

/// Every index lies in a table.
pub proof fn lemma_index_range()
    ensures
        forall|w: u64, l: int| 0 <= #[trigger] index_at(w, l) < 512,
{
    assert forall|w: u64, l: int| 0 <= #[trigger] index_at(w, l) < 512 by {
        lemma_index_facts(w);
    }
}

/// What linking a fresh table into the tree changes: the walks that share
/// the indices of `v` down to `level` now reach the fresh table at the level
/// below and end there; every other walk, and every translation, is as it
/// was.
pub proof fn lemma_link(
    a: PhysicalMemory,
    b: PhysicalMemory,
    root: int,
    v: u64,
    level: int,
    t: int,
    f: int,
)
    requires
        2 <= level <= 4,
        tree(a, root),
        closed(a, root),
        table_at(a, root, v, level) == Some(t),
        a.entry(t, index_at(v, level)) == 0,
        a.contains(f),
        0 <= f < 0x10_0000_0000_0000,
        forall|w: u64, l: int| 1 <= l <= 4 ==> #[trigger] table_at(a, root, w, l) != Some(f),
        b.base_addr() == a.base_addr(),
        b.end_addr() == a.end_addr(),
        b.entry(t, index_at(v, level)) == link_entry(f as u64),
        forall|i: int| 0 <= i < 512 ==> #[trigger] b.entry(f, i) == 0,
        forall|x: int, i: int|
            a.contains(x) && 0 <= i < 512 && x != f && !(x == t && i == index_at(v, level))
                ==> #[trigger] b.entry(x, i) == a.entry(x, i),
    ensures
        closed(b, root),
        tree(b, root),
        forall|w: u64, l: int|
            1 <= l <= 4 ==> #[trigger] table_at(b, root, w, l) == (if l == level - 1
                && same_prefix(w, v, level - 1) {
                Some(f)
            } else {
                table_at(a, root, w, l)
            }),
        forall|w: u64| #[trigger] translation(b, root, w) == translation(a, root, w),
        forall|w: u64| #[trigger] page_frame(b, root, w) == page_frame(a, root, w),
        entry_at(b, root, v, level - 1) == Some(0u64),
        forall|l: int| level <= l <= 4 ==> entry_at(b, root, v, l) == if l == level {
            Some(link_entry(f as u64))
        } else {
            entry_at(a, root, v, l)
        },
        forall|w: u64| regular(a, root, w) ==> #[trigger] regular(b, root, w),
{
    lemma_index_range();
    lemma_entry_facts(0);
    lemma_table_entry(f as u64);
    let link = link_entry(f as u64);
    assert(entry_present(link) && !entry_huge(link) && entry_addr(link) == f);
    assert forall|w: u64| regular(a, root, w) implies #[trigger] regular(b, root, w) by {
        lemma_link_walk(a, b, root, v, level, t, f, w);
        assert forall|l: int| 1 <= l <= 4 implies (#[trigger] entry_at(b, root, w, l) matches Some(e)
            ==> e == 0 || (entry_present(e) && !entry_huge(e))) by {
            assert(entry_at(a, root, w, l) matches Some(e) ==> e == 0 || (entry_present(e)
                && !entry_huge(e)));
        }
    }
    assert(next_table(b, t, index_at(v, level)) == Some(f));
    assert(next_table(a, t, index_at(v, level)).is_none());
    assert forall|w: u64, l: int| 1 <= l <= 4 implies #[trigger] table_at(b, root, w, l) == (if l
        == level - 1 && same_prefix(w, v, level - 1) {
        Some(f)
    } else {
        table_at(a, root, w, l)
    }) by {
        lemma_link_walk(a, b, root, v, level, t, f, w);
    }
    assert forall|w: u64| #[trigger] translation(b, root, w) == translation(a, root, w) by {
        lemma_link_walk(a, b, root, v, level, t, f, w);
    }
    assert forall|w: u64| #[trigger] page_frame(b, root, w) == page_frame(a, root, w) by {
        lemma_link_walk(a, b, root, v, level, t, f, w);
    }
    lemma_link_walk(a, b, root, v, level, t, f, v);
    assert forall|w: u64, x: u64, lw: int, lx: int|
        1 <= lw <= 4 && 1 <= lx <= 4 && (#[trigger] table_at(b, root, w, lw)) is Some && table_at(
            b,
            root,
            w,
            lw,
        ) == #[trigger] table_at(b, root, x, lx) implies lw == lx && same_prefix(w, x, lw) by {
        lemma_link_walk(a, b, root, v, level, t, f, w);
        lemma_link_walk(a, b, root, v, level, t, f, x);
        assert(table_at(a, root, w, lw) != Some(f));
        assert(table_at(a, root, x, lx) != Some(f));
    }
}

/// What linking a fresh table into the tree changes of one walk.
pub proof fn lemma_link_walk(
    a: PhysicalMemory,
    b: PhysicalMemory,
    root: int,
    v: u64,
    level: int,
    t: int,
    f: int,
    w: u64,
)
    requires
        2 <= level <= 4,
        tree(a, root),
        closed(a, root),
        table_at(a, root, v, level) == Some(t),
        a.entry(t, index_at(v, level)) == 0,
        a.contains(f),
        0 <= f < 0x10_0000_0000_0000,
        forall|w: u64, l: int| 1 <= l <= 4 ==> #[trigger] table_at(a, root, w, l) != Some(f),
        b.base_addr() == a.base_addr(),
        b.end_addr() == a.end_addr(),
        b.entry(t, index_at(v, level)) == link_entry(f as u64),
        forall|i: int| 0 <= i < 512 ==> #[trigger] b.entry(f, i) == 0,
        forall|x: int, i: int|
            a.contains(x) && 0 <= i < 512 && x != f && !(x == t && i == index_at(v, level))
                ==> #[trigger] b.entry(x, i) == a.entry(x, i),
    ensures
        forall|l: int|
            1 <= l <= 4 ==> #[trigger] table_at(b, root, w, l) == (if l == level - 1 && same_prefix(
                w,
                v,
                level - 1,
            ) {
                Some(f)
            } else {
                table_at(a, root, w, l)
            }),
        forall|l: int|
            1 <= l <= 4 ==> #[trigger] entry_at(b, root, w, l) == (if same_prefix(w, v, level - 1) {
                if l == level {
                    Some(link_entry(f as u64))
                } else if l == level - 1 {
                    Some(0u64)
                } else {
                    entry_at(a, root, w, l)
                }
            } else {
                entry_at(a, root, w, l)
            }),
        forall|l: int|
            1 <= l <= 4 ==> (#[trigger] table_at(b, root, w, l) matches Some(x) ==> b.contains(x)),
        translation(b, root, w) == translation(a, root, w),
        page_frame(b, root, w) == page_frame(a, root, w),
{
    lemma_index_range();
    lemma_entry_facts(0);
    lemma_table_entry(f as u64);
    let link = link_entry(f as u64);
    assert(entry_present(link) && !entry_huge(link) && entry_addr(link) == f);
    let shared = same_prefix(w, v, level - 1);
    // level 4
    assert(table_at(a, root, w, 4) == Some(root));
    assert(table_at(a, root, v, 4) == Some(root));
    assert(a.contains(root));
    // the word read at each level is changed only on the shared path
    assert forall|l: int| 2 <= l <= 4 && table_at(a, root, w, l) is Some && !(l == level
        && same_prefix(w, v, level - 1)) implies b.entry(
        table_at(a, root, w, l)->Some_0,
        index_at(w, l),
    ) == a.entry(table_at(a, root, w, l)->Some_0, index_at(w, l)) by {
        let x = table_at(a, root, w, l)->Some_0;
        assert(a.contains(x));
        assert(x != f);
        if x == t {
            assert(table_at(a, root, w, l) == table_at(a, root, v, level));
            assert(l == level && same_prefix(w, v, level));
        }
    }
    if level == 4 {
        lemma_link_below(a, b, root, f, w, 3, shared);
    } else if level == 3 {
        assert(table_at(b, root, w, 3) == table_at(a, root, w, 3));
        lemma_link_below(a, b, root, f, w, 2, shared);
    } else {
        assert(table_at(b, root, w, 3) == table_at(a, root, w, 3));
        assert(table_at(b, root, w, 2) == table_at(a, root, w, 2));
        lemma_link_below(a, b, root, f, w, 1, shared);
    }
    assert(table_at(b, root, w, 1) == (if 1 == level - 1 && shared {
        Some(f)
    } else {
        table_at(a, root, w, 1)
    }));
    assert(table_at(b, root, w, 2) == (if 2 == level - 1 && shared {
        Some(f)
    } else {
        table_at(a, root, w, 2)
    }));
    assert(table_at(b, root, w, 3) == (if 3 == level - 1 && shared {
        Some(f)
    } else {
        table_at(a, root, w, 3)
    }));
    assert forall|l: int| 1 <= l <= 4 implies #[trigger] entry_at(b, root, w, l) == (if shared {
        if l == level {
            Some(link)
        } else if l == level - 1 {
            Some(0u64)
        } else {
            entry_at(a, root, w, l)
        }
    } else {
        entry_at(a, root, w, l)
    }) by {
        if table_at(a, root, w, l) is Some {
            let x = table_at(a, root, w, l)->Some_0;
            assert(a.contains(x));
            assert(x != f);
            if l == 1 {
                if x == t {
                    assert(table_at(a, root, w, l) == table_at(a, root, v, level));
                }
            }
        }
    }
    lemma_translation_by_entries(a, root, w);
    lemma_translation_by_entries(b, root, w);
}

/// Below the table that was linked in, a walk on the shared path ends; any
/// other walk goes on as before.
proof fn lemma_link_below(
    a: PhysicalMemory,
    b: PhysicalMemory,
    root: int,
    f: int,
    w: u64,
    below: int,
    shared: bool,
)
    requires
        1 <= below <= 3,
        forall|i: int| 0 <= i < 512 ==> #[trigger] b.entry(f, i) == 0,
        shared ==> table_at(b, root, w, below) == Some(f) && table_at(a, root, w, below).is_none(),
        !shared ==> table_at(b, root, w, below) == table_at(a, root, w, below),
        !shared ==> forall|l: int|
            2 <= l <= below && table_at(a, root, w, l) is Some ==> b.entry(
                table_at(a, root, w, l)->Some_0,
                index_at(w, l),
            ) == a.entry(table_at(a, root, w, l)->Some_0, index_at(w, l)),
    ensures
        forall|l: int|
            1 <= l < below ==> table_at(b, root, w, l) == table_at(a, root, w, l),
{
    lemma_index_range();
    lemma_entry_facts(0);
    if shared {
        assert(next_table(b, f, index_at(w, below)).is_none());
        if below >= 2 {
            assert(table_at(b, root, w, below - 1).is_none());
            assert(table_at(a, root, w, below - 1).is_none());
        }
        if below >= 3 {
            assert(table_at(b, root, w, below - 2).is_none());
            assert(table_at(a, root, w, below - 2).is_none());
        }
    } else {
        if below >= 2 {
            assert(table_at(b, root, w, below - 1) == table_at(a, root, w, below - 1));
        }
        if below >= 3 {
            assert(table_at(b, root, w, below - 2) == table_at(a, root, w, below - 2));
        }
    }
}

/// What writing the entry of level 1 of the walk for `v` changes: the walks
/// reach the tables that they reached, and the entry of level 1 of the
/// addresses that share all four indices of `v` is the one written.
pub proof fn lemma_leaf(a: PhysicalMemory, b: PhysicalMemory, root: int, v: u64, t: int, m: u64)
    requires
        tree(a, root),
        closed(a, root),
        table_at(a, root, v, 1) == Some(t),
        b.base_addr() == a.base_addr(),
        b.end_addr() == a.end_addr(),
        b.entry(t, index_at(v, 1)) == m,
        forall|x: int, i: int|
            a.contains(x) && 0 <= i < 512 && !(x == t && i == index_at(v, 1))
                ==> #[trigger] b.entry(x, i) == a.entry(x, i),
    ensures
        closed(b, root),
        tree(b, root),
        forall|w: u64, l: int|
            1 <= l <= 4 ==> #[trigger] table_at(b, root, w, l) == table_at(a, root, w, l),
        forall|w: u64, l: int|
            1 <= l <= 4 ==> #[trigger] entry_at(b, root, w, l) == (if l == 1 && same_prefix(w, v, 0) {
                Some(m)
            } else {
                entry_at(a, root, w, l)
            }),
        forall|w: u64|
            #[trigger] translation(b, root, w) == (if same_prefix(w, v, 0) {
                if entry_present(m) && !entry_huge(m) {
                    Some(entry_addr(m) + (w & 0xfff))
                } else {
                    None
                }
            } else {
                translation(a, root, w)
            }),
        forall|w: u64|
            #[trigger] page_frame(b, root, w) == (if same_prefix(w, v, 0) {
                entry_frame(m)
            } else {
                page_frame(a, root, w)
            }),
        m == 0 || (entry_present(m) && !entry_huge(m)) ==> forall|w: u64|
            regular(a, root, w) ==> #[trigger] regular(b, root, w),
{
    if m == 0 || (entry_present(m) && !entry_huge(m)) {
        assert forall|w: u64| regular(a, root, w) implies #[trigger] regular(b, root, w) by {
            lemma_leaf_walk(a, b, root, v, t, m, w);
            assert forall|l: int| 1 <= l <= 4 implies (#[trigger] entry_at(b, root, w, l) matches Some(
                e,
            ) ==> e == 0 || (entry_present(e) && !entry_huge(e))) by {
                assert(entry_at(a, root, w, l) matches Some(e) ==> e == 0 || (entry_present(e)
                    && !entry_huge(e)));
            }
        }
    }
    assert forall|w: u64, l: int| 1 <= l <= 4 implies #[trigger] table_at(b, root, w, l)
        == table_at(a, root, w, l) by {
        lemma_leaf_walk(a, b, root, v, t, m, w);
    }
    assert forall|w: u64, l: int| 1 <= l <= 4 implies #[trigger] entry_at(b, root, w, l) == (if l
        == 1 && same_prefix(w, v, 0) {
        Some(m)
    } else {
        entry_at(a, root, w, l)
    }) by {
        lemma_leaf_walk(a, b, root, v, t, m, w);
    }
    assert forall|w: u64|
        #[trigger] translation(b, root, w) == (if same_prefix(w, v, 0) {
            if entry_present(m) && !entry_huge(m) {
                Some(entry_addr(m) + (w & 0xfff))
            } else {
                None
            }
        } else {
            translation(a, root, w)
        }) by {
        lemma_leaf_walk(a, b, root, v, t, m, w);
    }
    assert forall|w: u64|
        #[trigger] page_frame(b, root, w) == (if same_prefix(w, v, 0) {
            entry_frame(m)
        } else {
            page_frame(a, root, w)
        }) by {
        lemma_leaf_walk(a, b, root, v, t, m, w);
    }
}

/// What writing the entry of level 1 of the walk for `v` changes of one walk.
pub proof fn lemma_leaf_walk(
    a: PhysicalMemory,
    b: PhysicalMemory,
    root: int,
    v: u64,
    t: int,
    m: u64,
    w: u64,
)
    requires
        tree(a, root),
        closed(a, root),
        table_at(a, root, v, 1) == Some(t),
        b.base_addr() == a.base_addr(),
        b.end_addr() == a.end_addr(),
        b.entry(t, index_at(v, 1)) == m,
        forall|x: int, i: int|
            a.contains(x) && 0 <= i < 512 && !(x == t && i == index_at(v, 1))
                ==> #[trigger] b.entry(x, i) == a.entry(x, i),
    ensures
        forall|l: int| 1 <= l <= 4 ==> #[trigger] table_at(b, root, w, l) == table_at(a, root, w, l),
        forall|l: int|
            1 <= l <= 4 ==> #[trigger] entry_at(b, root, w, l) == (if l == 1 && same_prefix(w, v, 0) {
                Some(m)
            } else {
                entry_at(a, root, w, l)
            }),
        translation(b, root, w) == (if same_prefix(w, v, 0) {
            if entry_present(m) && !entry_huge(m) {
                Some(entry_addr(m) + (w & 0xfff))
            } else {
                None
            }
        } else {
            translation(a, root, w)
        }),
        page_frame(b, root, w) == (if same_prefix(w, v, 0) {
            entry_frame(m)
        } else {
            page_frame(a, root, w)
        }),
{
    lemma_index_range();
    assert(table_at(a, root, w, 4) == Some(root));
    assert(a.contains(root));
    assert forall|l: int| 1 <= l <= 4 && table_at(a, root, w, l) is Some && !(l == 1
        && same_prefix(w, v, 0)) implies b.entry(
        table_at(a, root, w, l)->Some_0,
        index_at(w, l),
    ) == a.entry(table_at(a, root, w, l)->Some_0, index_at(w, l)) by {
        let x = table_at(a, root, w, l)->Some_0;
        assert(a.contains(x));
        if x == t {
            assert(table_at(a, root, w, l) == table_at(a, root, v, 1));
            assert(l == 1 && same_prefix(w, v, 1));
        }
    }
    assert(table_at(b, root, w, 3) == table_at(a, root, w, 3));
    assert(table_at(b, root, w, 2) == table_at(a, root, w, 2));
    assert(table_at(b, root, w, 1) == table_at(a, root, w, 1));
    if same_prefix(w, v, 0) {
        assert(table_at(a, root, w, 3) == table_at(a, root, v, 3));
        assert(table_at(a, root, w, 2) == table_at(a, root, v, 2));
        assert(table_at(a, root, w, 1) == table_at(a, root, v, 1));
        assert(entry_at(b, root, w, 1) == Some(m));
        assert(entry_at(a, root, w, 2) == entry_at(a, root, v, 2));
    }
    assert(entry_at(b, root, w, 4) == entry_at(a, root, w, 4));
    assert(entry_at(b, root, w, 3) == entry_at(a, root, w, 3));
    assert(entry_at(b, root, w, 2) == entry_at(a, root, w, 2));
    lemma_translation_by_entries(a, root, w);
    lemma_translation_by_entries(b, root, w);
}

/// What mapping the page of `v` to `frame` with `flags` gives and changes,
/// from the memory `m0` and the free memory `f0` to `m1` and `f1`:
/// - if no table is missing and the entry of the page is in use, the error
///   names the frame that the entry holds, and nothing changes;
/// - else, if fewer frames are free than tables are missing, the allocation
///   fails, the free memory is used up, and every translation is as it was;
/// - else the page is mapped: the entry of the page holds the frame and the
///   flags, the addresses of the page translate into the frame, every other
///   translation is as it was, and every missing table took one free frame.
pub open spec fn map_effect(
    root: int,
    m0: PhysicalMemory,
    f0: BuddyFrameAllocator,
    m1: PhysicalMemory,
    f1: BuddyFrameAllocator,
    v: u64,
    frame: Frame,
    flags: PageTableFlags,
    r: Result<Frame, MapError>,
) -> bool {
    let missing = missing_tables(m0, root, v);
    let m = mapped_entry(frame, flags);
    if missing == 0 && entry_at(m0, root, v, 1) != Some(0u64) {
        &&& entry_at(m0, root, v, 1) matches Some(e) && r == Err::<
            Frame,
            MapError,
        >(MapError::PageAlreadyMapped(Frame { start: PhysAddr(entry_addr(e)) }))
        &&& same_cells(m0, m1)
        &&& f1.free_pages() == f0.free_pages()
        &&& f1.free_bytes() == f0.free_bytes()
        &&& forall|w: u64| #[trigger] translation(m1, root, w) == translation(m0, root, w)
        &&& forall|w: u64| #[trigger] page_frame(m1, root, w) == page_frame(m0, root, w)
    } else if f0.free_pages() < missing {
        &&& r == Err::<Frame, MapError>(MapError::AllocationFailed)
        &&& f1.free_pages() == 0
        &&& forall|w: u64| #[trigger]
            translation(m1, root, w) == translation(m0, root, w)
        &&& forall|w: u64| #[trigger]
            page_frame(m1, root, w) == page_frame(m0, root, w)
    } else {
        &&& r == Ok::<Frame, MapError>(Frame { start: PhysAddr(entry_addr(m)) })
        &&& f1.free_pages() == f0.free_pages() - missing
        &&& entry_at(m1, root, v, 1) == Some(m)
        &&& forall|w: u64| #[trigger]
            translation(m1, root, w) == (if same_prefix(w, v, 0) {
                Some(entry_addr(m) + (w & 0xfff))
            } else {
                translation(m0, root, w)
            })
        &&& forall|w: u64| #[trigger]
            page_frame(m1, root, w) == (if same_prefix(w, v, 0) {
                Ok::<Frame, FrameError>(Frame { start: PhysAddr(entry_addr(m)) })
            } else {
                page_frame(m0, root, w)
            })
    }
}

/// What unmapping the page of `v` gives and changes, from the memory `m0`
/// to `m1`: if the page is mapped to a frame, the frame is returned and the
/// entry of the page is set unused, and no other word changes; else the
/// error says why the walk found no frame, and nothing changes.
pub open spec fn unmap_effect(
    root: int,
    m0: PhysicalMemory,
    m1: PhysicalMemory,
    v: u64,
    r: Result<Frame, UnmapError>,
) -> bool {
    match page_frame(m0, root, v) {
        Ok(frame) => {
            &&& r == Ok::<Frame, UnmapError>(frame)
            &&& m1.base_addr() == m0.base_addr()
            &&& m1.end_addr() == m0.end_addr()
            &&& table_at(m0, root, v, 1) matches Some(t) && m1.entry(t, index_at(v, 1)) == 0
            &&& forall|x: int, i: int|
                m0.contains(x) && 0 <= i < 512 && !(Some(x) == table_at(m0, root, v, 1) && i
                    == index_at(v, 1)) ==> #[trigger] m1.entry(x, i) == m0.entry(x, i)
        },
        Err(FrameError::FrameNotPresent) => r == Err::<Frame, UnmapError>(UnmapError::PageNotMapped)
            && same_cells(m0, m1),
        Err(FrameError::HugePageNotSupported) => r == Err::<Frame, UnmapError>(
            UnmapError::ParentEntryHugePage,
        ) && same_cells(m0, m1),
    }
}

/// The tree of page tables of one address space, by the address of its
/// table of level 4.
#[derive(Debug)]
pub struct PageMap {
    pml4: PhysAddr,
}

impl PageMap {
    /// The address of the table of level 4.
    pub closed spec fn root(&self) -> int {
        self.pml4.0 as int
    }

    /// The tree whose table of level 4 lies at `cr3`.
    pub fn from_cr3(cr3: PhysAddr) -> (r: Self)
        ensures
            r.root() == cr3.0,
    {
        Self { pml4: cr3 }
    }

    /// The address of the table of level 4.
    pub fn root_addr(&self) -> (r: PhysAddr)
        ensures
            r.0 == self.root(),
    {
        self.pml4
    }

    /// The tree lies in the memory, none of its tables in free memory, and
    /// the free memory lies in the memory too.
    #[verifier::opaque]
    pub open spec fn wf(&self, mem: PhysicalMemory, frames: LockedFrameAllocator) -> bool {
        Self::wf_root(self.root(), mem, frames)
    }

    /// The tree from the table at `root` lies in the memory, none of its
    /// tables in free memory, and the free memory lies in the memory too.
    pub open spec fn wf_root(root: int, mem: PhysicalMemory, frames: LockedFrameAllocator) -> bool {
        &&& mem.wf()
        &&& frames@.wf()
        &&& mem.base_addr() <= frames@.base_addr()
        &&& frames@.end_addr() <= mem.end_addr()
        &&& closed(mem, root)
        &&& tree(mem, root)
        &&& owned(mem, root, frames@.free_bytes())
    }

    /// What a well-formed tree is: it lies in the memory, none of its tables
    /// in free memory.
    pub proof fn lemma_wf_gives(&self, mem: PhysicalMemory, frames: LockedFrameAllocator)
        requires
            self.wf(mem, frames),
        ensures
            Self::wf_root(self.root(), mem, frames),
    {
        reveal(PageMap::wf);
    }

    /// A tree stays well-formed when free memory is taken away.
    pub proof fn lemma_wf_shrinks(
        &self,
        mem: PhysicalMemory,
        before: LockedFrameAllocator,
        after: LockedFrameAllocator,
    )
        requires
            self.wf(mem, before),
            after@.wf(),
            after@.same_range(&before@),
            after@.free_bytes().subset_of(before@.free_bytes()),
        ensures
            self.wf(mem, after),
    {
        reveal(PageMap::wf);
    }

    /// Reads an entry of a table.
    fn read_entry(mem: &PhysicalMemory, table: PhysAddr, index: u16) -> (r: PageTableEntry)
        requires
            mem.wf(),
            mem.contains(table.0 as int),
            index < 512,
        ensures
            r.0 == mem.entry(table.0 as int, index as int),
    {
        PageTableEntry(mem.read(table, index as usize))
    }

    /// Translate a single virtual address to a physical address. Returns
    /// `None` if the virtual address is unmapped. An entry of level 2 that
    /// maps a large page gives the address in that page.
    pub fn translate_addr(&self, mem: &PhysicalMemory, addr: VirtAddr) -> (r: Option<PhysAddr>)
        requires
            mem.wf(),
            closed(*mem, self.root()),
            !misplaced_huge(*mem, self.root(), addr.0),
        ensures
            match r {
                Some(p) => translation(*mem, self.root(), addr.0) == Some(p.0 as int),
                None => translation(*mem, self.root(), addr.0).is_none(),
            },
    {
        let ghost root = self.root();
        proof {
            lemma_index_facts(addr.0);
            assert(table_at(*mem, root, addr.0, 4) == Some(root));
        }
        let e4 = Self::read_entry(mem, self.pml4, addr.p4_index());
        let t3 = match e4.frame() {
            Ok(frame) => frame.start_addr(),
            Err(_) => {
                return None;
            },
        };
        assert(table_at(*mem, root, addr.0, 3) == Some(t3.0 as int));
        let e3 = Self::read_entry(mem, t3, addr.p3_index());
        let t2 = match e3.frame() {
            Ok(frame) => frame.start_addr(),
            Err(_) => {
                return None;
            },
        };
        assert(table_at(*mem, root, addr.0, 2) == Some(t2.0 as int));
        let e2 = Self::read_entry(mem, t2, addr.p2_index());
        proof {
            lemma_entry_facts(e2.0);
        }
        let t1 = match e2.frame() {
            Ok(frame) => frame.start_addr(),
            Err(FrameError::FrameNotPresent) => {
                return None;
            },
            Err(FrameError::HugePageNotSupported) => {
                return Some(PhysAddr::new(e2.addr().0 + (addr.0 & 0x1f_ffff)));
            },
        };
        assert(table_at(*mem, root, addr.0, 1) == Some(t1.0 as int));
        let e1 = Self::read_entry(mem, t1, addr.p1_index());
        proof {
            lemma_entry_facts(e1.0);
        }
        match e1.frame() {
            Ok(frame) => Some(PhysAddr::new(frame.start_addr().0 + (addr.page_index() as u64))),
            Err(_) => None,
        }
    }

    /// Translate a page to a physical frame.
    ///
    /// # Errors
    /// - Returns [`FrameError::FrameNotPresent`] if the page is unmapped.
    /// - Returns [`FrameError::HugePageNotSupported`] if the page is a large page.
    pub fn translate_page(&self, mem: &PhysicalMemory, page: Page) -> (r: Result<Frame, FrameError>)
        requires
            mem.wf(),
            closed(*mem, self.root()),
        ensures
            r == page_frame(*mem, self.root(), page.start.0),
    {
        let ghost root = self.root();
        let addr = page.start_addr();
        proof {
            assert(table_at(*mem, root, addr.0, 4) == Some(root));
        }
        let e4 = Self::read_entry(mem, self.pml4, addr.p4_index());
        let t3 = match e4.frame() {
            Ok(frame) => frame.start_addr(),
            Err(e) => {
                return Err(e);
            },
        };
        assert(table_at(*mem, root, addr.0, 3) == Some(t3.0 as int));
        let e3 = Self::read_entry(mem, t3, addr.p3_index());
        let t2 = match e3.frame() {
            Ok(frame) => frame.start_addr(),
            Err(e) => {
                return Err(e);
            },
        };
        assert(table_at(*mem, root, addr.0, 2) == Some(t2.0 as int));
        let e2 = Self::read_entry(mem, t2, addr.p2_index());
        let t1 = match e2.frame() {
            Ok(frame) => frame.start_addr(),
            Err(e) => {
                return Err(e);
            },
        };
        assert(table_at(*mem, root, addr.0, 1) == Some(t1.0 as int));
        let e1 = Self::read_entry(mem, t1, addr.p1_index());
        e1.frame()
    }

    /// Unmap a page of virtual memory, returning the frame that was just
    /// unmapped. The walk stops at the first entry that gives no table.
    ///
    /// # Errors
    /// - Returns [`UnmapError::PageNotMapped`] if an entry on the walk is not
    ///   present.
    /// - Returns [`UnmapError::ParentEntryHugePage`] if an entry on the walk
    ///   maps a large page.
    pub fn unmap_page(&self, mem: &mut PhysicalMemory, page: Page) -> (r: Result<Frame, UnmapError>)
        requires
            old(mem).wf(),
            closed(*old(mem), self.root()),
        ensures
            final(mem).wf(),
            final(mem).base_addr() == old(mem).base_addr(),
            final(mem).end_addr() == old(mem).end_addr(),
            unmap_effect(self.root(), *old(mem), *final(mem), page.start.0, r),
            tree(*old(mem), self.root()) ==> {
                &&& tree(*final(mem), self.root())
                &&& closed(*final(mem), self.root())
                &&& forall|w: u64, l: int|
                    1 <= l <= 4 ==> #[trigger] table_at(*final(mem), self.root(), w, l) == table_at(
                        *old(mem),
                        self.root(),
                        w,
                        l,
                    )
                &&& forall|w: u64| #[trigger]
                    translation(*final(mem), self.root(), w) == (if r is Ok && same_prefix(
                        w,
                        page.start.0,
                        0,
                    ) {
                        None
                    } else {
                        translation(*old(mem), self.root(), w)
                    })
                &&& forall|w: u64|
                    regular(*old(mem), self.root(), w) ==> #[trigger] regular(
                        *final(mem),
                        self.root(),
                        w,
                    )
            },
    {
        let ghost root = self.root();
        let addr = page.start_addr();
        proof {
            assert(table_at(*mem, root, addr.0, 4) == Some(root));
            lemma_entry_facts(0);
        }
        let e4 = Self::read_entry(mem, self.pml4, addr.p4_index());
        let t3 = match e4.frame() {
            Ok(frame) => frame.start_addr(),
            Err(e) => {
                return Err(Self::unmap_error(e));
            },
        };
        assert(table_at(*mem, root, addr.0, 3) == Some(t3.0 as int));
        let e3 = Self::read_entry(mem, t3, addr.p3_index());
        let t2 = match e3.frame() {
            Ok(frame) => frame.start_addr(),
            Err(e) => {
                return Err(Self::unmap_error(e));
            },
        };
        assert(table_at(*mem, root, addr.0, 2) == Some(t2.0 as int));
        let e2 = Self::read_entry(mem, t2, addr.p2_index());
        let t1 = match e2.frame() {
            Ok(frame) => frame.start_addr(),
            Err(e) => {
                return Err(Self::unmap_error(e));
            },
        };
        assert(table_at(*mem, root, addr.0, 1) == Some(t1.0 as int));
        let mut entry = Self::read_entry(mem, t1, addr.p1_index());
        let frame = match entry.frame() {
            Ok(frame) => frame,
            Err(e) => {
                return Err(Self::unmap_error(e));
            },
        };
        entry.set_unused();
        mem.write(t1, addr.p1_index() as usize, entry.0);
        proof {
            if tree(*old(mem), root) {
                lemma_leaf(*old(mem), *mem, root, addr.0, t1.0 as int, 0);
            }
        }
        Ok(frame)
    }

    /// The error of unmapping for the error of an entry.
    fn unmap_error(e: FrameError) -> (r: UnmapError)
        ensures
            r == match e {
                FrameError::FrameNotPresent => UnmapError::PageNotMapped,
                FrameError::HugePageNotSupported => UnmapError::ParentEntryHugePage,
            },
    {
        match e {
            FrameError::FrameNotPresent => UnmapError::PageNotMapped,
            FrameError::HugePageNotSupported => UnmapError::ParentEntryHugePage,
        }
    }
}

/// The entry that maps a page to `frame` with `flags`.
pub open spec fn mapped_entry(frame: Frame, flags: PageTableFlags) -> u64 {
    entry_with(0, frame.start.0, flags.bits)
}

impl PageMap {
    /// The table that the entry of `level` on the walk for `addr` points to.
    /// If the entry is unused, a frame is allocated, linked in as the table
    /// and zeroed.
    fn descend(
        &self,
        mem: &mut PhysicalMemory,
        frames: &mut LockedFrameAllocator,
        table: PhysAddr,
        addr: VirtAddr,
        level: u8,
    ) -> (r: Result<PhysAddr, MapError>)
        requires
            2 <= level <= 4,
            self.wf(*old(mem), *old(frames)),
            table_at(*old(mem), self.root(), addr.0, level as int) == Some(table.0 as int),
            regular(*old(mem), self.root(), addr.0),
        ensures
            self.wf(*final(mem), *final(frames)),
            final(mem).base_addr() == old(mem).base_addr(),
            final(mem).end_addr() == old(mem).end_addr(),
            final(frames)@.same_range(&old(frames)@),
            final(frames)@.free_bytes().subset_of(old(frames)@.free_bytes()),
            regular(*final(mem), self.root(), addr.0),
            forall|w: u64|
                regular(*old(mem), self.root(), w) ==> #[trigger] regular(
                    *final(mem),
                    self.root(),
                    w,
                ),
            forall|w: u64| #[trigger]
                translation(*final(mem), self.root(), w) == translation(*old(mem), self.root(), w),
            forall|w: u64| #[trigger]
                page_frame(*final(mem), self.root(), w) == page_frame(*old(mem), self.root(), w),
            level < 4 ==> entry_at(*final(mem), self.root(), addr.0, 4) == entry_at(
                *old(mem),
                self.root(),
                addr.0,
                4,
            ),
            level < 3 ==> entry_at(*final(mem), self.root(), addr.0, 3) == entry_at(
                *old(mem),
                self.root(),
                addr.0,
                3,
            ),
            match r {
                Ok(next) => {
                    &&& table_at(*final(mem), self.root(), addr.0, level - 1) == Some(next.0 as int)
                    &&& if entry_at(*old(mem), self.root(), addr.0, level as int) == Some(0u64) {
                        &&& old(frames)@.free_pages() > 0
                        &&& final(frames)@.free_pages() == old(frames)@.free_pages() - 1
                        &&& entry_at(*final(mem), self.root(), addr.0, level - 1) == Some(0u64)
                    } else {
                        &&& same_cells(*old(mem), *final(mem))
                        &&& final(frames)@.free_pages() == old(frames)@.free_pages()
                        &&& final(frames)@.free_bytes() == old(frames)@.free_bytes()
                        &&& entry_at(*final(mem), self.root(), addr.0, 4) == entry_at(
                            *old(mem),
                            self.root(),
                            addr.0,
                            4,
                        )
                        &&& entry_at(*final(mem), self.root(), addr.0, 3) == entry_at(
                            *old(mem),
                            self.root(),
                            addr.0,
                            3,
                        )
                        &&& entry_at(*final(mem), self.root(), addr.0, 2) == entry_at(
                            *old(mem),
                            self.root(),
                            addr.0,
                            2,
                        )
                        &&& entry_at(*final(mem), self.root(), addr.0, 1) == entry_at(
                            *old(mem),
                            self.root(),
                            addr.0,
                            1,
                        )
                    }
                },
                Err(e) => {
                    &&& e == MapError::AllocationFailed
                    &&& entry_at(*old(mem), self.root(), addr.0, level as int) == Some(0u64)
                    &&& old(frames)@.free_pages() == 0
                    &&& final(frames)@.free_pages() == 0
                    &&& same_cells(*old(mem), *final(mem))
                },
            },
    {
        reveal(PageMap::wf);
        let ghost root = self.root();
        let ghost v = addr.0;
        let index = if level == 4 {
            addr.p4_index()
        } else if level == 3 {
            addr.p3_index()
        } else {
            addr.p2_index()
        };
        proof {
            lemma_entry_facts(0);
            old(mem).lemma_bounds();
            assert(old(mem).contains(table.0 as int));
        }
        let mut entry = Self::read_entry(mem, table, index);
        assert(entry_at(*mem, root, v, level as int) == Some(entry.0));
        if entry.is_unused() {
            proof {
                frames@.lemma_free_pages_zero();
            }
            let fresh = match frames.alloc_bytes(4096) {
                Some(a) => a,
                None => {
                    proof {
                        assert forall|o: int, a: int| !old(frames)@.is_free(o, a) by {
                            if old(frames)@.is_free(o, a) {
                                old(frames)@.lemma_free_is_valid(o, a);
                            }
                        }
                        assert(frames@.free_bytes() =~= old(frames)@.free_bytes());
                    }
                    return Err(MapError::AllocationFailed);
                },
            };
            let table_frame = Frame::containing_addr(fresh);
            let ghost f = fresh.0 as int;
            proof {
                lemma_table_entry(fresh.0);
                assert(block_bytes(0, f).contains(f));
                assert(old(frames)@.free_bytes().contains(f));
                assert(old(mem).contains(f));
                assert forall|w: u64, l: int| 1 <= l <= 4 implies #[trigger] table_at(
                    *old(mem),
                    root,
                    w,
                    l,
                ) != Some(f) by {}
                assert(table.0 != f) by {
                    assert(table_at(*old(mem), root, v, level as int) == Some(table.0 as int));
                }
            }
            entry.set_frame(table_frame, PageTableFlags::from_bits_truncate(TABLE_FLAGS));
            mem.write(table, index as usize, entry.0);
            let next = entry.addr();
            mem.zero_frame(next);
            proof {
                lemma_link(*old(mem), *mem, root, v, level as int, table.0 as int, f);
                assert forall|w: u64, l: int| 1 <= l <= 4 implies (#[trigger] table_at(
                    *mem,
                    root,
                    w,
                    l,
                ) matches Some(t) ==> !frames@.free_bytes().contains(t)) by {
                    if table_at(*mem, root, w, l) != Some(f) {
                        assert(table_at(*mem, root, w, l) == table_at(*old(mem), root, w, l));
                    }
                }
                assert(level < 4 ==> entry_at(*mem, root, v, 4) == entry_at(*old(mem), root, v, 4));
                assert(level < 3 ==> entry_at(*mem, root, v, 3) == entry_at(*old(mem), root, v, 3));
            }
            Ok(next)
        } else {
            proof {
                assert forall|w: u64| regular(*old(mem), root, w) implies #[trigger] regular(
                    *mem,
                    root,
                    w,
                ) by {}
            }
            Ok(entry.addr())
        }
    }

    /// The table of level 1 on the walk for `addr`. Each table that is
    /// missing on the way is allocated, linked in and zeroed.
    #[verifier::rlimit(60)]
    fn prepare_tables(
        &self,
        mem: &mut PhysicalMemory,
        frames: &mut LockedFrameAllocator,
        addr: VirtAddr,
    ) -> (r: Result<PhysAddr, MapError>)
        requires
            self.wf(*old(mem), *old(frames)),
            regular(*old(mem), self.root(), addr.0),
        ensures
            self.wf(*final(mem), *final(frames)),
            final(mem).base_addr() == old(mem).base_addr(),
            final(mem).end_addr() == old(mem).end_addr(),
            final(frames)@.same_range(&old(frames)@),
            final(frames)@.free_bytes().subset_of(old(frames)@.free_bytes()),
            regular(*final(mem), self.root(), addr.0),
            forall|w: u64|
                regular(*old(mem), self.root(), w) ==> #[trigger] regular(
                    *final(mem),
                    self.root(),
                    w,
                ),
            forall|w: u64| #[trigger]
                translation(*final(mem), self.root(), w) == translation(*old(mem), self.root(), w),
            forall|w: u64| #[trigger]
                page_frame(*final(mem), self.root(), w) == page_frame(*old(mem), self.root(), w),
            match r {
                Ok(t1) => {
                    let missing = missing_tables(*old(mem), self.root(), addr.0);
                    &&& table_at(*final(mem), self.root(), addr.0, 1) == Some(t1.0 as int)
                    &&& old(frames)@.free_pages() >= missing
                    &&& final(frames)@.free_pages() == old(frames)@.free_pages() - missing
                    &&& missing == 0 ==> same_cells(*old(mem), *final(mem))
                    &&& missing == 0 ==> final(frames)@.free_bytes() == old(frames)@.free_bytes()
                    &&& missing == 0 ==> entry_at(*final(mem), self.root(), addr.0, 1) == entry_at(
                        *old(mem),
                        self.root(),
                        addr.0,
                        1,
                    )
                    &&& missing > 0 ==> entry_at(*final(mem), self.root(), addr.0, 1) == Some(0u64)
                },
                Err(e) => {
                    &&& e == MapError::AllocationFailed
                    &&& 0 <= old(frames)@.free_pages() < missing_tables(
                        *old(mem),
                        self.root(),
                        addr.0,
                    )
                    &&& final(frames)@.free_pages() == 0
                },
            },
    {
        let ghost root = self.root();
        let ghost v = addr.0;
        let ghost mem4 = *mem;
        let ghost frames4 = *frames;
        proof {
            lemma_entry_facts(0);
            assert(table_at(*mem, root, v, 4) == Some(root));
            assert(entry_at(mem4, root, v, 4) is Some);
        }
        let t3 = match self.descend(mem, frames, self.pml4, addr, 4) {
            Ok(t) => t,
            Err(e) => {
                return Err(e);
            },
        };
        let ghost mem3 = *mem;
        let ghost frames3 = *frames;
        proof {
            assert(entry_at(mem3, root, v, 3) is Some);
            assert(entry_at(mem4, root, v, 4) != Some(0u64) ==> entry_at(mem3, root, v, 3)
                == entry_at(mem4, root, v, 3) && entry_at(mem3, root, v, 2) == entry_at(
                mem4,
                root,
                v,
                2,
            ) && entry_at(mem3, root, v, 1) == entry_at(mem4, root, v, 1));
        }
        let t2 = match self.descend(mem, frames, t3, addr, 3) {
            Ok(t) => t,
            Err(e) => {
                proof {
                    assert(missing_tables(mem4, root, v) >= 2);
                    assert(frames4@.free_pages() < missing_tables(mem4, root, v));
                }
                return Err(e);
            },
        };
        let ghost mem2 = *mem;
        let ghost frames2 = *frames;
        proof {
            assert(entry_at(mem2, root, v, 2) is Some);
            assert(entry_at(mem3, root, v, 3) != Some(0u64) ==> entry_at(mem2, root, v, 2)
                == entry_at(mem3, root, v, 2) && entry_at(mem2, root, v, 1) == entry_at(
                mem3,
                root,
                v,
                1,
            ));
        }
        let t1 = match self.descend(mem, frames, t2, addr, 2) {
            Ok(t) => t,
            Err(e) => {
                proof {
                    assert(missing_tables(mem4, root, v) >= 1);
                    assert(frames4@.free_pages() < missing_tables(mem4, root, v));
                }
                return Err(e);
            },
        };
        let ghost mem1 = *mem;
        proof {
            assert(entry_at(mem2, root, v, 2) != Some(0u64) ==> entry_at(mem1, root, v, 1)
                == entry_at(mem2, root, v, 1));
            assert(frames@.free_pages() == frames4@.free_pages() - missing_tables(mem4, root, v));
            if missing_tables(mem4, root, v) == 0 {
                lemma_same_cells_trans(mem4, mem3, mem2);
                lemma_same_cells_trans(mem4, mem2, mem1);
            }
            assert forall|w: u64| #[trigger]
                translation(mem1, root, w) == translation(mem4, root, w) by {
                assert(translation(mem1, root, w) == translation(mem2, root, w));
                assert(translation(mem2, root, w) == translation(mem3, root, w));
                assert(translation(mem3, root, w) == translation(mem4, root, w));
            }
            assert forall|w: u64| #[trigger]
                page_frame(mem1, root, w) == page_frame(mem4, root, w) by {
                assert(page_frame(mem1, root, w) == page_frame(mem2, root, w));
                assert(page_frame(mem2, root, w) == page_frame(mem3, root, w));
                assert(page_frame(mem3, root, w) == page_frame(mem4, root, w));
            }
            assert forall|w: u64| regular(mem4, root, w) implies #[trigger] regular(
                mem1,
                root,
                w,
            ) by {
                assert(regular(mem3, root, w));
                assert(regular(mem2, root, w));
            }
            assert(frames4@.free_pages() >= 0) by {
                reveal(PageMap::wf);
                frames4@.lemma_free_pages_zero();
            }
        }
        Ok(t1)
    }

    /// Map a page of virtual memory to a physical frame, returning the newly
    /// mapped frame. A table that is missing on the walk is allocated,
    /// linked in and zeroed.
    ///
    /// # Errors
    /// - Returns [`MapError::PageAlreadyMapped`] with the frame that the page
    ///   is mapped to, if its entry is in use.
    /// - Returns [`MapError::AllocationFailed`] if a table is missing and no
    ///   frame is free.
    pub fn map_page(
        &self,
        mem: &mut PhysicalMemory,
        frames: &mut LockedFrameAllocator,
        page: Page,
        frame: Frame,
        flags: PageTableFlags,
    ) -> (r: Result<Frame, MapError>)
        requires
            self.wf(*old(mem), *old(frames)),
            regular(*old(mem), self.root(), page.start.0),
            frame.start.0 % 4096 == 0,
            flags.valid(),
            flags.has(PRESENT),
            !flags.has(HUGE_PAGE),
        ensures
            self.wf(*final(mem), *final(frames)),
            final(mem).wf(),
            final(frames)@.wf(),
            closed(*final(mem), self.root()),
            tree(*final(mem), self.root()),
            final(mem).base_addr() == old(mem).base_addr(),
            final(mem).end_addr() == old(mem).end_addr(),
            final(frames)@.same_range(&old(frames)@),
            final(frames)@.free_bytes().subset_of(old(frames)@.free_bytes()),
            regular(*final(mem), self.root(), page.start.0),
            forall|w: u64|
                regular(*old(mem), self.root(), w) ==> #[trigger] regular(
                    *final(mem),
                    self.root(),
                    w,
                ),
            map_effect(
                self.root(),
                *old(mem),
                old(frames)@,
                *final(mem),
                final(frames)@,
                page.start.0,
                frame,
                flags,
                r,
            ),
    {
        let ghost root = self.root();
        let addr = page.start_addr();
        let ghost v = addr.0;
        let ghost mem4 = *mem;
        let ghost frames4 = *frames;
        let t1 = match self.prepare_tables(mem, frames, addr) {
            Ok(t) => t,
            Err(e) => {
                proof {
                    reveal(PageMap::wf);
                }
                return Err(e);
            },
        };
        let ghost mem1 = *mem;
        let index = addr.p1_index();
        proof {
            reveal(PageMap::wf);
            lemma_entry_facts(0);
            assert(mem1.contains(t1.0 as int));
        }
        let mut entry = Self::read_entry(mem, t1, index);
        assert(entry_at(mem1, root, v, 1) == Some(entry.0));
        if !entry.is_unused() {
            let existing = entry.frame();
            proof {
                lemma_entry_facts(entry.0);
                assert(missing_tables(mem4, root, v) == 0);
                assert(entry_at(mem4, root, v, 1) == Some(entry.0));
                assert forall|w: u64| regular(mem4, root, w) implies #[trigger] regular(
                    mem1,
                    root,
                    w,
                ) by {}
            }
            return Err(MapError::PageAlreadyMapped(existing.unwrap()));
        }
        proof {
            lemma_entry_with(frame.start.0, flags.bits);
            assert(entry_at(mem4, root, v, 1) == Some(0u64) || missing_tables(mem4, root, v) > 0);
        }
        entry.set_frame(frame, flags);
        mem.write(t1, index as usize, entry.0);
        proof {
            let m = mapped_entry(frame, flags);
            assert(entry.0 == m);
            assert(entry_present(m) && !entry_huge(m));
            lemma_entry_facts(m);
            lemma_leaf(mem1, *mem, root, v, t1.0 as int, m);
            assert forall|w: u64, l: int| 1 <= l <= 4 implies (#[trigger] table_at(*mem, root, w, l) matches Some(
                t,
            ) ==> !frames@.free_bytes().contains(t)) by {
                assert(table_at(*mem, root, w, l) == table_at(mem1, root, w, l));
            }
            assert(same_prefix(v, v, 0));
            assert(entry_at(*mem, root, v, 1) == Some(m));
            assert forall|w: u64| regular(mem4, root, w) implies #[trigger] regular(
                *mem,
                root,
                w,
            ) by {
                assert(regular(mem1, root, w));
            }
            assert forall|w: u64| #[trigger]
                translation(*mem, root, w) == (if same_prefix(w, v, 0) {
                    Some(entry_addr(m) + (w & 0xfff))
                } else {
                    translation(mem4, root, w)
                }) by {
                assert(translation(mem1, root, w) == translation(mem4, root, w));
            }
            assert forall|w: u64| #[trigger]
                page_frame(*mem, root, w) == (if same_prefix(w, v, 0) {
                    Ok::<Frame, FrameError>(Frame { start: PhysAddr(entry_addr(m)) })
                } else {
                    page_frame(mem4, root, w)
                }) by {
                assert(page_frame(mem1, root, w) == page_frame(mem4, root, w));
            }
            assert forall|l: int| 1 <= l <= 4 implies (#[trigger] entry_at(*mem, root, v, l) matches Some(
                e,
            ) ==> e == 0 || (entry_present(e) && !entry_huge(e))) by {
                assert(entry_at(*mem, root, v, l) == (if l == 1 {
                    Some(m)
                } else {
                    entry_at(mem1, root, v, l)
                }));
            }
        }
        let mapped = entry.frame();
        Ok(mapped.unwrap())
    }
}

impl PageMap {
    /// A tree that maps nothing: a frame is allocated and zeroed as its table
    /// of level 4. Returns `None` if no frame is free.
    pub fn empty(mem: &mut PhysicalMemory, frames: &mut LockedFrameAllocator) -> (r: Option<Self>)
        requires
            old(mem).wf(),
            old(frames)@.wf(),
            old(mem).base_addr() <= old(frames)@.base_addr(),
            old(frames)@.end_addr() <= old(mem).end_addr(),
        ensures
            final(mem).wf(),
            final(mem).base_addr() == old(mem).base_addr(),
            final(mem).end_addr() == old(mem).end_addr(),
            final(frames)@.wf(),
            final(frames)@.same_range(&old(frames)@),
            match r {
                Some(map) => {
                    &&& map.wf(*final(mem), *final(frames))
                    &&& old(frames)@.free_pages() > 0
                    &&& final(frames)@.free_pages() == old(frames)@.free_pages() - 1
                    &&& old(mem).contains(map.root())
                    &&& block_bytes(0, map.root()).subset_of(old(frames)@.free_bytes())
                    &&& final(frames)@.free_bytes() == old(frames)@.free_bytes().difference(
                        block_bytes(0, map.root()),
                    )
                    &&& forall|i: int| 0 <= i < 512 ==> #[trigger] final(mem).entry(map.root(), i) == 0
                    &&& forall|x: int, i: int|
                        old(mem).contains(x) && 0 <= i < 512 && x != map.root()
                            ==> #[trigger] final(mem).entry(x, i) == old(mem).entry(x, i)
                    &&& forall|w: u64| (#[trigger] translation(*final(mem), map.root(), w)).is_none()
                    &&& forall|w: u64| #[trigger] regular(*final(mem), map.root(), w)
                },
                None => {
                    &&& old(frames)@.free_pages() == 0
                    &&& final(frames)@.free_pages() == 0
                    &&& final(frames)@.free_bytes() == old(frames)@.free_bytes()
                    &&& same_cells(*old(mem), *final(mem))
                },
            },
    {
        proof {
            frames@.lemma_free_pages_zero();
        }
        let root = match frames.alloc_bytes(4096) {
            Some(a) => a,
            None => {
                proof {
                    assert forall|o: int, a: int| !old(frames)@.is_free(o, a) by {
                        if old(frames)@.is_free(o, a) {
                            old(frames)@.lemma_free_is_valid(o, a);
                        }
                    }
                    assert(frames@.free_bytes() =~= old(frames)@.free_bytes());
                }
                return None;
            },
        };
        mem.zero_frame(root);
        let map = Self { pml4: root };
        proof {
            reveal(PageMap::wf);
            lemma_index_range();
            lemma_entry_facts(0);
            let f = root.0 as int;
            assert(block_bytes(0, f).contains(f));
            assert forall|w: u64, l: int| 1 <= l <= 3 implies (#[trigger] table_at(*mem, f, w, l)).is_none() by {
                assert(next_table(*mem, f, index_at(w, 4)).is_none());
            }
            assert forall|w: u64| (#[trigger] translation(*mem, f, w)).is_none() by {
                assert(table_at(*mem, f, w, 2).is_none());
            }
            assert forall|w: u64| #[trigger] regular(*mem, f, w) by {
                assert forall|l: int| 1 <= l <= 4 implies (#[trigger] entry_at(*mem, f, w, l) matches Some(
                    e,
                ) ==> e == 0 || (entry_present(e) && !entry_huge(e))) by {
                    if l <= 3 {
                        assert(table_at(*mem, f, w, l).is_none());
                    }
                }
            }
            assert forall|w: u64, x: u64, lw: int, lx: int|
                1 <= lw <= 4 && 1 <= lx <= 4 && (#[trigger] table_at(*mem, f, w, lw)) is Some
                    && table_at(*mem, f, w, lw) == #[trigger] table_at(
                    *mem,
                    f,
                    x,
                    lx,
                ) implies lw == lx && same_prefix(w, x, lw) by {
                if lw <= 3 {
                    assert(table_at(*mem, f, w, lw).is_none());
                }
                if lx <= 3 {
                    assert(table_at(*mem, f, x, lx).is_none());
                }
            }
        }
        Some(map)
    }
}

/// Where a page is mapped to a frame, its addresses are mapped into that
/// frame, each at its offset.
pub proof fn lemma_frame_gives_translation(mem: PhysicalMemory, root: int, w: u64)
    ensures
        page_frame(mem, root, w) matches Ok(frame) ==> translation(mem, root, w) == Some(
            frame.start.0 + (w & 0xfff),
        ),
        page_frame(mem, root, w) == Err::<Frame, FrameError>(FrameError::FrameNotPresent)
            ==> translation(mem, root, w).is_none(),
{
}

/// A walk whose entries are all unused or present without the flag of a large
/// page meets no misplaced large page.
pub proof fn lemma_regular_walk(mem: PhysicalMemory, root: int, v: u64)
    requires
        regular(mem, root, v),
    ensures
        !misplaced_huge(mem, root, v),
{
    lemma_entry_facts(0);
    assert(entry_at(mem, root, v, 4) matches Some(e) ==> e == 0 || (entry_present(e) && !entry_huge(
        e,
    )));
    assert(entry_at(mem, root, v, 3) matches Some(e) ==> e == 0 || (entry_present(e) && !entry_huge(
        e,
    )));
    assert(entry_at(mem, root, v, 1) matches Some(e) ==> e == 0 || (entry_present(e) && !entry_huge(
        e,
    )));
}

/// A page whose entry holds a frame and flags translates into that frame:
/// what the mapping of a page establishes is what the translation gives.
pub proof fn lemma_mapped_page_translates(
    mem: PhysicalMemory,
    root: int,
    v: u64,
    frame: Frame,
    flags: PageTableFlags,
)
    requires
        entry_at(mem, root, v, 1) == Some(mapped_entry(frame, flags)),
        frame.start.0 % 4096 == 0,
        frame.start.0 < 0x10_0000_0000_0000,
        flags.valid(),
        flags.has(PRESENT),
        !flags.has(HUGE_PAGE),
    ensures
        translation(mem, root, v) == Some(frame.start.0 + (v & 0xfff)),
        page_frame(mem, root, v) == Ok::<Frame, FrameError>(frame),
        missing_tables(mem, root, v) == 0,
        entry_at(mem, root, v, 1) != Some(0u64),
{
    lemma_entry_with(frame.start.0, flags.bits);
    lemma_entry_facts(0);
    lemma_translation_by_entries(mem, root, v);
    let m = mapped_entry(frame, flags);
    assert(entry_present(m) && !entry_huge(m) && entry_addr(m) == frame.start.0);
    assert(table_at(mem, root, v, 1) is Some);
    assert(table_at(mem, root, v, 2) is Some);
    assert(table_at(mem, root, v, 3) is Some);
}

/// A page whose entry is unused translates to nothing.
pub proof fn lemma_unused_page_is_unmapped(mem: PhysicalMemory, root: int, v: u64)
    requires
        entry_at(mem, root, v, 1) == Some(0u64),
    ensures
        translation(mem, root, v).is_none(),
        page_frame(mem, root, v) == Err::<Frame, FrameError>(FrameError::FrameNotPresent),
{
    lemma_entry_facts(0);
    lemma_translation_by_entries(mem, root, v);
    assert(table_at(mem, root, v, 1) is Some);
    assert(table_at(mem, root, v, 2) is Some);
    assert(table_at(mem, root, v, 3) is Some);
}

/// Mapping and unmapping go round: after a page was mapped to a frame, its
/// addresses translate into the frame; after it was unmapped again, they
/// translate to nothing, and the frame that the unmapping returns is the one
/// that was mapped.
pub proof fn lemma_map_unmap_round_trip(
    before: PhysicalMemory,
    free_before: BuddyFrameAllocator,
    mapped: PhysicalMemory,
    free_after: BuddyFrameAllocator,
    unmapped: PhysicalMemory,
    root: int,
    v: u64,
    frame: Frame,
    flags: PageTableFlags,
    r: Result<Frame, UnmapError>,
)
    requires
        map_effect(
            root,
            before,
            free_before,
            mapped,
            free_after,
            v,
            frame,
            flags,
            Ok::<Frame, MapError>(frame),
        ),
        closed(mapped, root),
        tree(mapped, root),
        unmap_effect(root, mapped, unmapped, v, r),
        frame.start.0 % 4096 == 0,
        frame.start.0 < 0x10_0000_0000_0000,
        flags.valid(),
        flags.has(PRESENT),
        !flags.has(HUGE_PAGE),
    ensures
        forall|w: u64|
            same_prefix(w, v, 0) ==> #[trigger] translation(mapped, root, w) == Some(
                frame.start.0 + (w & 0xfff),
            ),
        r == Ok::<Frame, UnmapError>(frame),
        forall|w: u64| same_prefix(w, v, 0) ==> (#[trigger] translation(unmapped, root, w)).is_none(),
        forall|w: u64|
            !same_prefix(w, v, 0) ==> #[trigger] translation(unmapped, root, w) == translation(
                before,
                root,
                w,
            ),
{
    lemma_entry_with(frame.start.0, flags.bits);
    lemma_entry_facts(0);
    let m = mapped_entry(frame, flags);
    assert(entry_addr(m) == frame.start.0);
    assert(same_prefix(v, v, 0));
    assert(page_frame(mapped, root, v) == Ok::<Frame, FrameError>(frame));
    assert(table_at(mapped, root, v, 1) is Some) by {
        lemma_translation_by_entries(mapped, root, v);
    }
    let t = table_at(mapped, root, v, 1)->Some_0;
    lemma_leaf(mapped, unmapped, root, v, t, 0);
}

/// A page that is mapped is not mapped again: where the entry of a page
/// holds a frame, mapping the page gives the error that names the frame and
/// changes nothing.
pub proof fn lemma_double_map_is_rejected(
    mem: PhysicalMemory,
    free: BuddyFrameAllocator,
    after: PhysicalMemory,
    free_after: BuddyFrameAllocator,
    root: int,
    v: u64,
    first: Frame,
    first_flags: PageTableFlags,
    second: Frame,
    second_flags: PageTableFlags,
    r: Result<Frame, MapError>,
)
    requires
        entry_at(mem, root, v, 1) == Some(mapped_entry(first, first_flags)),
        first.start.0 % 4096 == 0,
        first.start.0 < 0x10_0000_0000_0000,
        first_flags.valid(),
        first_flags.has(PRESENT),
        !first_flags.has(HUGE_PAGE),
        map_effect(root, mem, free, after, free_after, v, second, second_flags, r),
    ensures
        r == Err::<Frame, MapError>(MapError::PageAlreadyMapped(first)),
        same_cells(mem, after),
        free_after.free_bytes() == free.free_bytes(),
{
    lemma_mapped_page_translates(mem, root, v, first, first_flags);
    lemma_entry_with(first.start.0, first_flags.bits);
}

impl crate::memory::VirtualMemoryManager for PageMap {
    open spec fn table(&self) -> int {
        self.root()
    }

    fn translate_addr(&self, mem: &PhysicalMemory, addr: VirtAddr) -> (r: Option<PhysAddr>) {
        PageMap::translate_addr(self, mem, addr)
    }

    fn translate_page(&self, mem: &PhysicalMemory, page: Page) -> (r: Result<Frame, FrameError>) {
        PageMap::translate_page(self, mem, page)
    }

    fn map_page(
        &self,
        mem: &mut PhysicalMemory,
        frames: &mut LockedFrameAllocator,
        page: Page,
        frame: Frame,
        flags: PageTableFlags,
    ) -> (r: Result<Frame, MapError>) {
        proof {
            reveal(PageMap::wf);
        }
        PageMap::map_page(self, mem, frames, page, frame, flags)
    }

    fn unmap_page(&self, mem: &mut PhysicalMemory, page: Page) -> (r: Result<Frame, UnmapError>) {
        PageMap::unmap_page(self, mem, page)
    }
}

} // verus!
