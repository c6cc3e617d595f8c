//! Address spaces: trees of page tables that share the tables of the kernel
//! half.

use vstd::prelude::*;

use super::{
    closed, entry_at, index_at, lemma_index_range, lemma_translation_by_entries,
    lemma_walk_unchanged, next_table, owned, page_frame, regular, same_cells, table_at,
    translation, tree, PageMap,
};
use super::page_table::{lemma_entry_facts, ADDR_MASK};
use crate::memory::addr::PhysAddr;
use crate::memory::frame::{block_bytes, Frame, FrameError, LockedFrameAllocator};
use crate::memory::physical::PhysicalMemory;
use crate::memory::MapError;

verus! {

/// The virtual address lies in the kernel half: its index of level 4 is 256
/// or more.
pub open spec fn kernel_half(w: u64) -> bool {
    index_at(w, 4) >= 256
}

/// The memory `b` is the memory `a` after the frame at `f` was made the
/// table of level 4 of a new address space: its lower 256 entries are unused,
/// its upper 256 entries are those of the table at `active`, and every other
/// frame is as it was.
pub open spec fn fresh_space(a: PhysicalMemory, b: PhysicalMemory, active: int, f: int) -> bool {
    &&& b.base_addr() == a.base_addr()
    &&& b.end_addr() == a.end_addr()
    &&& forall|i: int| 0 <= i < 256 ==> #[trigger] b.entry(f, i) == 0
    &&& forall|i: int| 256 <= i < 512 ==> #[trigger] b.entry(f, i) == a.entry(active, i)
    &&& forall|x: int, i: int|
        a.contains(x) && 0 <= i < 512 && x != f ==> #[trigger] b.entry(x, i) == a.entry(x, i)
}

/// A tree of whose tables none lies in the frame that changed is as it was:
/// its walks reach the same tables and read the same entries.
pub proof fn lemma_untouched_tree(a: PhysicalMemory, b: PhysicalMemory, root: int, f: int)
    requires
        closed(a, root),
        forall|w: u64, l: int| 1 <= l <= 4 ==> #[trigger] table_at(a, root, w, l) != Some(f),
        b.base_addr() == a.base_addr(),
        b.end_addr() == a.end_addr(),
        forall|x: int, i: int|
            a.contains(x) && 0 <= i < 512 && x != f ==> #[trigger] b.entry(x, i) == a.entry(x, i),
    ensures
        closed(b, root),
        tree(a, root) ==> tree(b, root),
        forall|w: u64, l: int|
            1 <= l <= 4 ==> #[trigger] table_at(b, root, w, l) == table_at(a, root, w, l),
        forall|w: u64, l: int|
            1 <= l <= 4 ==> #[trigger] entry_at(b, root, w, l) == entry_at(a, root, w, l),
        forall|w: u64| #[trigger] translation(b, root, w) == translation(a, root, w),
        forall|w: u64| #[trigger] page_frame(b, root, w) == page_frame(a, root, w),
        forall|w: u64| regular(a, root, w) ==> #[trigger] regular(b, root, w),
{
    assert forall|w: u64, l: int| 1 <= l <= 4 implies #[trigger] table_at(b, root, w, l)
        == table_at(a, root, w, l) by {
        lemma_untouched_walk(a, b, root, f, w);
    }
    assert forall|w: u64, l: int| 1 <= l <= 4 implies #[trigger] entry_at(b, root, w, l)
        == entry_at(a, root, w, l) by {
        lemma_untouched_walk(a, b, root, f, w);
    }
    assert forall|w: u64| #[trigger] translation(b, root, w) == translation(a, root, w) by {
        lemma_untouched_walk(a, b, root, f, w);
    }
    assert forall|w: u64| #[trigger] page_frame(b, root, w) == page_frame(a, root, w) by {
        lemma_untouched_walk(a, b, root, f, w);
    }
    assert forall|w: u64| regular(a, root, w) implies #[trigger] regular(b, root, w) by {
        assert forall|l: int| 1 <= l <= 4 implies (#[trigger] entry_at(b, root, w, l) matches Some(e)
            ==> e == 0 || (super::page_table::entry_present(e) && !super::page_table::entry_huge(
            e,
        ))) by {
            assert(entry_at(b, root, w, l) == entry_at(a, root, w, l));
        }
    }
}

/// A walk through a tree of whose tables none lies in the frame that changed
/// is as it was.
proof fn lemma_untouched_walk(a: PhysicalMemory, b: PhysicalMemory, root: int, f: int, w: u64)
    requires
        closed(a, root),
        forall|w: u64, l: int| 1 <= l <= 4 ==> #[trigger] table_at(a, root, w, l) != Some(f),
        b.base_addr() == a.base_addr(),
        b.end_addr() == a.end_addr(),
        forall|x: int, i: int|
            a.contains(x) && 0 <= i < 512 && x != f ==> #[trigger] b.entry(x, i) == a.entry(x, i),
    ensures
        forall|l: int| 1 <= l <= 4 ==> table_at(b, root, w, l) == table_at(a, root, w, l),
        forall|l: int| 1 <= l <= 4 ==> entry_at(b, root, w, l) == entry_at(a, root, w, l),
        translation(b, root, w) == translation(a, root, w),
        page_frame(b, root, w) == page_frame(a, root, w),
{
    lemma_index_range();
    assert forall|level: int| 1 <= level <= 4 implies (#[trigger] table_at(a, root, w, level) matches Some(
        t,
    ) ==> b.entry(t, index_at(w, level)) == a.entry(t, index_at(w, level))) by {
        if table_at(a, root, w, level) is Some {
            let t = table_at(a, root, w, level)->Some_0;
            assert(a.contains(t));
            assert(t != f);
        }
    }
    lemma_walk_unchanged(a, b, root, w);
}

/// What the walks of a new address space reach and read.
proof fn lemma_fresh_walk(a: PhysicalMemory, b: PhysicalMemory, active: int, f: int, w: u64)
    requires
        closed(a, active),
        tree(a, active),
        a.contains(f),
        forall|w: u64, l: int| 1 <= l <= 4 ==> #[trigger] table_at(a, active, w, l) != Some(f),
        fresh_space(a, b, active, f),
    ensures
        forall|l: int|
            1 <= l <= 3 ==> #[trigger] table_at(b, f, w, l) == (if kernel_half(w) {
                table_at(a, active, w, l)
            } else {
                None
            }),
        forall|l: int|
            1 <= l <= 4 ==> #[trigger] entry_at(b, f, w, l) == (if kernel_half(w) {
                entry_at(a, active, w, l)
            } else if l == 4 {
                Some(0u64)
            } else {
                None
            }),
{
    lemma_index_range();
    lemma_entry_facts(0);
    lemma_untouched_tree(a, b, active, f);
    assert(table_at(a, active, 0, 4) == Some(active));
    assert(a.contains(active));

        let i4 = index_at(w, 4);
        if kernel_half(w) {
            assert(b.entry(f, i4) == a.entry(active, i4));
            assert(table_at(b, f, w, 3) == table_at(a, active, w, 3));
            assert(table_at(b, active, w, 3) == table_at(a, active, w, 3));
            assert(table_at(b, active, w, 2) == table_at(a, active, w, 2));
            assert(table_at(b, active, w, 1) == table_at(a, active, w, 1));
            assert(table_at(b, f, w, 2) == table_at(b, active, w, 2));
            assert(table_at(b, f, w, 1) == table_at(b, active, w, 1));
            assert(entry_at(b, active, w, 3) == entry_at(a, active, w, 3));
            assert(entry_at(b, active, w, 2) == entry_at(a, active, w, 2));
            assert(entry_at(b, active, w, 1) == entry_at(a, active, w, 1));
            assert(entry_at(b, f, w, 3) == entry_at(b, active, w, 3));
            assert(entry_at(b, f, w, 2) == entry_at(b, active, w, 2));
            assert(entry_at(b, f, w, 1) == entry_at(b, active, w, 1));
            assert(entry_at(b, f, w, 4) == entry_at(a, active, w, 4));
        } else {
            assert(b.entry(f, i4) == 0);
            assert(next_table(b, f, i4).is_none());
            assert(table_at(b, f, w, 3).is_none());
            assert(table_at(b, f, w, 2).is_none());
            assert(table_at(b, f, w, 1).is_none());
        }
    }

/// The new address space shares the kernel half with the tree that it was
/// made from, and maps nothing in the user half.
pub proof fn lemma_fresh_space(a: PhysicalMemory, b: PhysicalMemory, active: int, f: int)
    requires
        closed(a, active),
        tree(a, active),
        a.contains(f),
        forall|w: u64, l: int| 1 <= l <= 4 ==> #[trigger] table_at(a, active, w, l) != Some(f),
        fresh_space(a, b, active, f),
    ensures
        closed(b, f),
        tree(b, f),
        forall|w: u64, l: int|
            1 <= l <= 3 ==> #[trigger] table_at(b, f, w, l) == (if kernel_half(w) {
                table_at(a, active, w, l)
            } else {
                None
            }),
        forall|w: u64|
            #[trigger] translation(b, f, w) == (if kernel_half(w) {
                translation(a, active, w)
            } else {
                None
            }),
        forall|w: u64|
            #[trigger] page_frame(b, f, w) == (if kernel_half(w) {
                page_frame(a, active, w)
            } else {
                Err(FrameError::FrameNotPresent)
            }),
        forall|w: u64| !kernel_half(w) || regular(a, active, w) ==> #[trigger] regular(b, f, w),
{
    lemma_index_range();
    lemma_entry_facts(0);
    lemma_untouched_tree(a, b, active, f);
    assert(table_at(a, active, 0, 4) == Some(active));
    assert(a.contains(active));
    assert forall|w: u64, l: int| 1 <= l <= 3 implies #[trigger] table_at(b, f, w, l) == (if kernel_half(
        w,
    ) {
        table_at(a, active, w, l)
    } else {
        None
    }) by {
        lemma_fresh_walk(a, b, active, f, w);
    }
    assert forall|w: u64|
        #[trigger] translation(b, f, w) == (if kernel_half(w) {
            translation(a, active, w)
        } else {
            None
        }) by {
        lemma_fresh_walk(a, b, active, f, w);
        lemma_translation_by_entries(b, f, w);
        lemma_translation_by_entries(a, active, w);
        assert(entry_at(b, f, w, 2) == (if kernel_half(w) {
            entry_at(a, active, w, 2)
        } else {
            None
        }));
        assert(entry_at(b, f, w, 1) == (if kernel_half(w) {
            entry_at(a, active, w, 1)
        } else {
            None
        }));
    }
    assert forall|w: u64|
        #[trigger] page_frame(b, f, w) == (if kernel_half(w) {
            page_frame(a, active, w)
        } else {
            Err(FrameError::FrameNotPresent)
        }) by {
        lemma_fresh_walk(a, b, active, f, w);
        lemma_translation_by_entries(b, f, w);
        lemma_translation_by_entries(a, active, w);
        assert(entry_at(b, f, w, 4) == (if kernel_half(w) {
            entry_at(a, active, w, 4)
        } else {
            Some(0u64)
        }));
        assert(entry_at(b, f, w, 3) == (if kernel_half(w) {
            entry_at(a, active, w, 3)
        } else {
            None
        }));
        assert(entry_at(b, f, w, 2) == (if kernel_half(w) {
            entry_at(a, active, w, 2)
        } else {
            None
        }));
        assert(entry_at(b, f, w, 1) == (if kernel_half(w) {
            entry_at(a, active, w, 1)
        } else {
            None
        }));
    }
    assert forall|w: u64| !kernel_half(w) || regular(a, active, w) implies #[trigger] regular(
        b,
        f,
        w,
    ) by {
        lemma_fresh_walk(a, b, active, f, w);
        assert forall|l: int| 1 <= l <= 4 implies (#[trigger] entry_at(b, f, w, l) matches Some(e)
            ==> e == 0 || (super::page_table::entry_present(e) && !super::page_table::entry_huge(
            e,
        ))) by {
            assert(entry_at(b, f, w, l) == (if kernel_half(w) {
                entry_at(a, active, w, l)
            } else if l == 4 {
                Some(0u64)
            } else {
                None
            }));
        }
    }
    assert forall|w: u64, l: int| 1 <= l <= 4 implies (#[trigger] table_at(b, f, w, l) matches Some(
        t,
    ) ==> b.contains(t)) by {
        lemma_fresh_walk(a, b, active, f, w);
        if l <= 3 && kernel_half(w) {
            assert(table_at(b, f, w, l) == table_at(a, active, w, l));
        }
    }
    assert forall|w: u64, x: u64, lw: int, lx: int|
        1 <= lw <= 4 && 1 <= lx <= 4 && (#[trigger] table_at(b, f, w, lw)) is Some && table_at(
            b,
            f,
            w,
            lw,
        ) == #[trigger] table_at(b, f, x, lx) implies lw == lx && super::same_prefix(w, x, lw) by {
        lemma_fresh_walk(a, b, active, f, w);
        lemma_fresh_walk(a, b, active, f, x);
        if lw <= 3 {
            assert(table_at(b, f, w, lw) == table_at(a, active, w, lw));
        }
        if lx <= 3 {
            assert(table_at(b, f, x, lx) == (if kernel_half(x) {
                table_at(a, active, x, lx)
            } else {
                None
            }));
        }
    }
}

/// Address spaces made one after the other from the same tree have different
/// tables of level 4, translate every address of the kernel half alike, and
/// map nothing in the user half.
pub proof fn lemma_spaces_isolated(
    m0: PhysicalMemory,
    m1: PhysicalMemory,
    m2: PhysicalMemory,
    active: int,
    first: int,
    second: int,
    free0: Set<int>,
    free1: Set<int>,
)
    requires
        closed(m0, active),
        tree(m0, active),
        owned(m0, active, free0),
        m0.contains(first),
        free0.contains(first),
        fresh_space(m0, m1, active, first),
        free1.subset_of(free0),
        !free1.contains(first),
        m1.contains(second),
        free1.contains(second),
        fresh_space(m1, m2, active, second),
    ensures
        first != second,
        first != active,
        second != active,
        forall|w: u64|
            kernel_half(w) ==> #[trigger] translation(m2, first, w) == translation(m2, second, w),
        forall|w: u64|
            kernel_half(w) ==> #[trigger] translation(m2, second, w) == translation(m0, active, w),
        forall|w: u64| !kernel_half(w) ==> (#[trigger] translation(m2, first, w)).is_none(),
        forall|w: u64| !kernel_half(w) ==> (#[trigger] translation(m2, second, w)).is_none(),
{
    assert(table_at(m0, active, 0, 4) == Some(active));
    assert forall|w: u64, l: int| 1 <= l <= 4 implies #[trigger] table_at(m0, active, w, l)
        != Some(first) by {}
    lemma_fresh_space(m0, m1, active, first);
    lemma_untouched_tree(m0, m1, active, first);
    assert forall|w: u64, l: int| 1 <= l <= 4 implies #[trigger] table_at(m1, active, w, l)
        != Some(second) by {
        assert(table_at(m1, active, w, l) == table_at(m0, active, w, l));
    }
    assert forall|w: u64, l: int| 1 <= l <= 4 implies #[trigger] table_at(m1, first, w, l)
        != Some(second) by {
        if l <= 3 {
            assert(table_at(m1, first, w, l) == (if kernel_half(w) {
                table_at(m0, active, w, l)
            } else {
                None
            }));
            if kernel_half(w) {
                assert(table_at(m0, active, w, l) != Some(second));
            }
        }
    }
    lemma_fresh_space(m1, m2, active, second);
    lemma_untouched_tree(m1, m2, first, second);
    assert forall|w: u64|
        kernel_half(w) implies #[trigger] translation(m2, second, w) == translation(
        m0,
        active,
        w,
    ) by {
        assert(translation(m1, active, w) == translation(m0, active, w));
    }
    assert forall|w: u64|
        kernel_half(w) implies #[trigger] translation(m2, first, w) == translation(
        m2,
        second,
        w,
    ) by {
        assert(translation(m2, first, w) == translation(m1, first, w));
        assert(translation(m1, first, w) == translation(m0, active, w));
        assert(translation(m2, second, w) == translation(m0, active, w));
    }
    assert forall|w: u64| !kernel_half(w) implies (#[trigger] translation(m2, first, w)).is_none() by {
        assert(translation(m2, first, w) == translation(m1, first, w));
    }
}

/// An address space, by the frame of its table of level 4.
#[derive(Debug)]
pub struct AddressSpace {
    cr3: Frame,
}

impl AddressSpace {
    /// The address of the table of level 4.
    pub closed spec fn root(&self) -> int {
        self.cr3.start.0 as int
    }

    /// A new address space: a frame is allocated for its table of level 4,
    /// whose lower 256 entries are set unused and whose upper 256 entries are
    /// copied from the table of level 4 of `active`, so that the new space
    /// shares the tables of the kernel half.
    pub fn new(mem: &mut PhysicalMemory, frames: &mut LockedFrameAllocator, active: &PageMap) -> (r:
        Result<Self, MapError>)
        requires
            active.wf(*old(mem), *old(frames)),
        ensures
            final(mem).wf(),
            final(frames)@.wf(),
            final(frames)@.same_range(&old(frames)@),
            active.wf(*final(mem), *final(frames)),
            forall|w: u64| #[trigger]
                translation(*final(mem), active.root(), w) == translation(
                    *old(mem),
                    active.root(),
                    w,
                ),
            forall|w: u64|
                regular(*old(mem), active.root(), w) ==> #[trigger] regular(
                    *final(mem),
                    active.root(),
                    w,
                ),
            match r {
                Ok(space) => {
                    &&& old(frames)@.free_pages() > 0
                    &&& final(frames)@.free_pages() == old(frames)@.free_pages() - 1
                    &&& old(mem).contains(space.root())
                    &&& block_bytes(0, space.root()).subset_of(old(frames)@.free_bytes())
                    &&& final(frames)@.free_bytes() == old(frames)@.free_bytes().difference(
                        block_bytes(0, space.root()),
                    )
                    &&& space.root() != active.root()
                    &&& fresh_space(*old(mem), *final(mem), active.root(), space.root())
                    &&& PageMap::wf_root(space.root(), *final(mem), *final(frames))
                    &&& forall|w: u64| #[trigger]
                        translation(*final(mem), space.root(), w) == (if kernel_half(w) {
                            translation(*old(mem), active.root(), w)
                        } else {
                            None
                        })
                    &&& forall|w: u64| #[trigger]
                        page_frame(*final(mem), space.root(), w) == (if kernel_half(w) {
                            page_frame(*old(mem), active.root(), w)
                        } else {
                            Err(FrameError::FrameNotPresent)
                        })
                    &&& forall|w: u64|
                        !kernel_half(w) || regular(*old(mem), active.root(), w)
                            ==> #[trigger] regular(*final(mem), space.root(), w)
                },
                Err(e) => {
                    &&& e == MapError::AllocationFailed
                    &&& old(frames)@.free_pages() == 0
                    &&& final(frames)@.free_pages() == 0
                    &&& same_cells(*old(mem), *final(mem))
                },
            },
    {
        reveal(PageMap::wf);
        let ghost root = active.root();
        proof {
            frames@.lemma_free_pages_zero();
            assert(table_at(*mem, root, 0, 4) == Some(root));
        }
        let phys_addr = match frames.alloc_bytes(4096) {
            Some(a) => a,
            None => {
                proof {
                    assert forall|o: int, a: int| !old(frames)@.is_free(o, a) by {
                        if old(frames)@.is_free(o, a) {
                            old(frames)@.lemma_free_is_valid(o, a);
                        }
                    }
                    assert(frames@.free_bytes() =~= old(frames)@.free_bytes());
                }
                return Err(MapError::AllocationFailed);
            },
        };
        let frame = Frame::containing_addr(phys_addr);
        let ghost f = phys_addr.0 as int;
        proof {
            assert(block_bytes(0, f).contains(f));
            assert(old(frames)@.free_bytes().contains(f));
            assert(old(mem).contains(f));
            assert forall|w: u64, l: int| 1 <= l <= 4 implies #[trigger] table_at(
                *old(mem),
                root,
                w,
                l,
            ) != Some(f) by {}
        }
        let current = active.root_addr();
        let mut i: usize = 0;
        while i < 256
            invariant
                i <= 256,
                mem.wf(),
                mem.contains(f),
                f == phys_addr.0,
                mem.base_addr() == old(mem).base_addr(),
                mem.end_addr() == old(mem).end_addr(),
                forall|j: int| 0 <= j < i ==> #[trigger] mem.entry(f, j) == 0,
                forall|x: int, j: int|
                    old(mem).contains(x) && 0 <= j < 512 && x != f ==> #[trigger] mem.entry(x, j)
                        == old(mem).entry(x, j),
            decreases 256 - i,
        {
            mem.write(phys_addr, i, 0);
            i += 1;
        }
        while i < 512
            invariant
                256 <= i <= 512,
                mem.wf(),
                mem.contains(f),
                mem.contains(root),
                current.0 == root,
                root != f,
                f == phys_addr.0,
                mem.base_addr() == old(mem).base_addr(),
                mem.end_addr() == old(mem).end_addr(),
                forall|j: int| 0 <= j < 256 ==> #[trigger] mem.entry(f, j) == 0,
                forall|j: int| 256 <= j < i ==> #[trigger] mem.entry(f, j) == old(mem).entry(root, j),
                forall|x: int, j: int|
                    old(mem).contains(x) && 0 <= j < 512 && x != f ==> #[trigger] mem.entry(x, j)
                        == old(mem).entry(x, j),
            decreases 512 - i,
        {
            let entry = mem.read(current, i);
            mem.write(phys_addr, i, entry);
            i += 1;
        }
        proof {
            lemma_untouched_tree(*old(mem), *mem, root, f);
            lemma_fresh_space(*old(mem), *mem, root, f);
            assert forall|w: u64, l: int| 1 <= l <= 4 implies (#[trigger] table_at(*mem, root, w, l) matches Some(
                t,
            ) ==> !frames@.free_bytes().contains(t)) by {
                assert(table_at(*mem, root, w, l) == table_at(*old(mem), root, w, l));
            }
            assert forall|w: u64, l: int| 1 <= l <= 4 implies (#[trigger] table_at(*mem, f, w, l) matches Some(
                t,
            ) ==> !frames@.free_bytes().contains(t)) by {
                if l <= 3 && kernel_half(w) {
                    assert(table_at(*mem, f, w, l) == table_at(*old(mem), root, w, l));
                }
            }
        }
        Ok(Self { cr3: frame })
    }

    /// The address space whose table of level 4 the register of the
    /// processor names: `value` is what the register holds.
    pub fn this(value: u64) -> (r: Self)
        ensures
            r.root() == value & ADDR_MASK,
    {
        proof {
            lemma_entry_facts(value);
        }
        let addr = PhysAddr::new(value & ADDR_MASK);
        Self { cr3: Frame::containing_addr(addr) }
    }

    /// The value to load into the register of the processor to make this
    /// address space the active one: the address of its table of level 4.
    pub fn switch(&self) -> (r: u64)
        ensures
            r == self.root(),
    {
        self.cr3.start_addr().0
    }

    /// The tree of page tables of the address space.
    pub fn page_map(&self) -> (r: PageMap)
        ensures
            r.root() == self.root(),
    {
        PageMap::from_cr3(self.cr3.start_addr())
    }
}

} // verus!
