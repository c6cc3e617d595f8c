//! What holds of the blocks that the frame allocator has handed out.

use vstd::prelude::*;

use super::frame::{
    block_bytes, block_size, blocks_disjoint, buddy_of, coalesce, lemma_half_aligned,
    BuddyFrameAllocator,
};

verus! {

/// The blocks in `live`, each as its class and its address, are in use
/// without conflict: none shares a byte with the free memory, and no two of
/// them share a byte.
pub open spec fn exclusive(free: Set<int>, live: Set<(int, int)>) -> bool {
    &&& forall|b: (int, int), x: int|
        live.contains(b) && #[trigger] block_bytes(b.0, b.1).contains(x) ==> !free.contains(x)
    &&& forall|b1: (int, int), b2: (int, int)|
        #[trigger] live.contains(b1) && #[trigger] live.contains(b2) && b1 != b2
            ==> blocks_disjoint(b1.0, b1.1, b2.0, b2.1)
}

/// Two blocks whose bytes are apart are apart.
pub proof fn lemma_apart(o1: int, a1: int, o2: int, a2: int)
    requires
        forall|x: int| !(block_bytes(o1, a1).contains(x) && block_bytes(o2, a2).contains(x)),
    ensures
        blocks_disjoint(o1, a1, o2, a2),
{
    let x = if a1 < a2 {
        a2
    } else {
        a1
    };
    assert(!(block_bytes(o1, a1).contains(x) && block_bytes(o2, a2).contains(x)));
}

/// No two live allocations overlap, first half: a block that is taken from
/// the free memory shares no byte with any block that is in use, and with it
/// the blocks in use are still without conflict.
pub proof fn lemma_allocation_is_exclusive(
    free: Set<int>,
    after: Set<int>,
    live: Set<(int, int)>,
    order: int,
    addr: int,
)
    requires
        exclusive(free, live),
        block_bytes(order, addr).subset_of(free),
        after == free.difference(block_bytes(order, addr)),
    ensures
        !live.contains((order, addr)),
        forall|b: (int, int)| #[trigger] live.contains(b) ==> blocks_disjoint(order, addr, b.0, b.1),
        exclusive(after, live.insert((order, addr))),
{
    assert(block_bytes(order, addr).contains(addr));
    assert forall|b: (int, int)| #[trigger] live.contains(b) implies blocks_disjoint(
        order,
        addr,
        b.0,
        b.1,
    ) by {
        assert forall|x: int|
            !(block_bytes(order, addr).contains(x) && block_bytes(b.0, b.1).contains(x)) by {
            if block_bytes(b.0, b.1).contains(x) {
                assert(!free.contains(x));
            }
        }
        lemma_apart(order, addr, b.0, b.1);
    }
    if live.contains((order, addr)) {
        assert(!free.contains(addr));
    }
    let more = live.insert((order, addr));
    assert forall|b: (int, int), x: int|
        more.contains(b) && #[trigger] block_bytes(b.0, b.1).contains(x) implies !after.contains(
        x,
    ) by {}
    assert forall|b1: (int, int), b2: (int, int)|
        #[trigger] more.contains(b1) && #[trigger] more.contains(b2) && b1
            != b2 implies blocks_disjoint(b1.0, b1.1, b2.0, b2.1) by {
        if b1 == (order, addr) {
            assert(live.contains(b2));
        } else if b2 == (order, addr) {
            assert(live.contains(b1));
        }
    }
}

/// No two live allocations overlap, second half: when a block in use is
/// returned to the free memory, the other blocks in use are still without
/// conflict.
pub proof fn lemma_deallocation_is_exclusive(
    free: Set<int>,
    after: Set<int>,
    live: Set<(int, int)>,
    order: int,
    addr: int,
)
    requires
        exclusive(free, live),
        live.contains((order, addr)),
        after == free.union(block_bytes(order, addr)),
    ensures
        exclusive(after, live.remove((order, addr))),
{
    let less = live.remove((order, addr));
    assert forall|b: (int, int), x: int|
        less.contains(b) && #[trigger] block_bytes(b.0, b.1).contains(x) implies !after.contains(
        x,
    ) by {
        assert(live.contains(b) && live.contains((order, addr)));
        assert(blocks_disjoint(b.0, b.1, order, addr));
    }
}

/// A block in use can be returned: it shares no byte with any block that is
/// marked free.
pub proof fn lemma_live_block_is_returnable(
    allocator: &BuddyFrameAllocator,
    live: Set<(int, int)>,
    order: int,
    addr: int,
)
    requires
        exclusive(allocator.free_bytes(), live),
        live.contains((order, addr)),
    ensures
        forall|o: int, a: int| #[trigger]
            allocator.is_free(o, a) ==> blocks_disjoint(order, addr, o, a),
{
    assert forall|o: int, a: int| #[trigger] allocator.is_free(o, a) implies blocks_disjoint(
        order,
        addr,
        o,
        a,
    ) by {
        assert forall|x: int|
            !(block_bytes(order, addr).contains(x) && block_bytes(o, a).contains(x)) by {
            if block_bytes(o, a).contains(x) && block_bytes(order, addr).contains(x) {
                assert(allocator.is_free(o, a) && a <= x < a + block_size(o));
                assert(allocator.free_bytes().contains(x));
                let b = (order, addr);
                assert(live.contains(b) && block_bytes(b.0, b.1).contains(x));
            }
        }
        lemma_apart(order, addr, o, a);
    }
}

/// The buddy of a block's buddy is the block.
pub proof fn lemma_buddy_of_buddy(addr: int, order: int)
    requires
        addr >= 0,
        addr % block_size(order) == 0,
    ensures
        buddy_of(buddy_of(addr, order), order) == addr,
        buddy_of(addr, order) != addr,
{
    lemma_half_aligned(addr, block_size(order));
}

/// Returning a block whose buddy is in use marks the block free and changes
/// nothing else: no block of a larger class becomes free.
pub proof fn lemma_lone_buddy_stays(free: Set<(int, int)>, order: int, addr: int)
    requires
        !free.contains((order, buddy_of(addr, order))),
    ensures
        coalesce(free, order, addr) == free.insert((order, addr)),
        forall|o: int, a: int|
            o > order ==> (coalesce(free, order, addr).contains((o, a)) <==> free.contains((o, a))),
{
}

/// Returning a block and then its buddy leaves neither marked free in their
/// class: the two were joined into a block of a larger class that holds them.
pub proof fn lemma_buddies_coalesce(free: Set<(int, int)>, order: int, addr: int)
    requires
        0 <= order < 9,
        addr >= 0,
        addr % block_size(order) == 0,
        !free.contains((order, addr)),
        !free.contains((order, buddy_of(addr, order))),
    ensures
        ({
            let one = coalesce(free, order, addr);
            let both = coalesce(one, order, buddy_of(addr, order));
            &&& !both.contains((order, addr))
            &&& !both.contains((order, buddy_of(addr, order)))
            &&& exists|o: int, a: int|
                order < o < 10 && #[trigger] both.contains((o, a)) && a <= addr < a + block_size(o)
        }),
{
    let buddy = buddy_of(addr, order);
    lemma_buddy_of_buddy(addr, order);
    lemma_half_aligned(addr, block_size(order));
    let one = free.insert((order, addr));
    assert(coalesce(free, order, addr) == one);
    assert(one.contains((order, buddy_of(buddy, order))));
    let rest = one.remove((order, addr));
    let lower = if buddy < addr {
        buddy
    } else {
        addr
    };
    assert(coalesce(one, order, buddy) == coalesce(rest, order + 1, lower));
    assert(rest =~= free);
    lemma_coalesce_result(free, order + 1, lower, order, addr);
    lemma_coalesce_result(free, order + 1, lower, order, buddy);
    lemma_coalesce_covers(free, order + 1, lower, addr);
}

/// Returning a block changes no mark in a smaller class.
pub proof fn lemma_coalesce_result(free: Set<(int, int)>, order: int, addr: int, o: int, a: int)
    requires
        o < order,
    ensures
        coalesce(free, order, addr).contains((o, a)) == free.contains((o, a)),
    decreases 10 - order,
{
    if 0 <= order < 9 && free.contains((order, buddy_of(addr, order))) {
        let buddy = buddy_of(addr, order);
        lemma_coalesce_result(
            free.remove((order, buddy)),
            order + 1,
            if addr < buddy {
                addr
            } else {
                buddy
            },
            o,
            a,
        );
    }
}

/// After a block was returned, a block of its class or a larger one that
/// holds it is marked free.
pub proof fn lemma_coalesce_covers(free: Set<(int, int)>, order: int, addr: int, x: int)
    requires
        0 <= order < 10,
        addr >= 0,
        addr % block_size(order) == 0,
        addr <= x < addr + block_size(order),
    ensures
        exists|o: int, a: int|
            order <= o < 10 && #[trigger] coalesce(free, order, addr).contains((o, a)) && a <= x < a
                + block_size(o),
    decreases 10 - order,
{
    if order < 9 && free.contains((order, buddy_of(addr, order))) {
        let buddy = buddy_of(addr, order);
        let lower = if addr < buddy {
            addr
        } else {
            buddy
        };
        lemma_half_aligned(addr, block_size(order));
        assert(block_size(order + 1) == 2 * block_size(order));
        lemma_coalesce_covers(free.remove((order, buddy)), order + 1, lower, x);
        let (o, a) = choose|o: int, a: int|
            order + 1 <= o < 10 && #[trigger] coalesce(
                free.remove((order, buddy)),
                order + 1,
                lower,
            ).contains((o, a)) && a <= x < a + block_size(o);
        assert(coalesce(free, order, addr).contains((o, a)));
    } else {
        assert(coalesce(free, order, addr).contains((order, addr)));
    }
}

} // verus!
