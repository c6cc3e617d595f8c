use molecule::memory::addr::PhysAddr;
use molecule::memory::frame::{
    buddy_size, reserve_descriptor_space, total_memory, BuddyFrameAllocator, Frame,
    FrameAllocator, InitError, LockedFrameAllocator,
};
use molecule::memory::memmap::{EntryType, MemoryMapEntry};

fn usable(base: u64, length: u64) -> MemoryMapEntry {
    MemoryMapEntry { base, length, entry_type: EntryType::Usable }
}

fn reserved(base: u64, length: u64) -> MemoryMapEntry {
    MemoryMapEntry { base, length, entry_type: EntryType::Reserved }
}

fn two_regions() -> Vec<MemoryMapEntry> {
    vec![usable(0x10_0000, 0x10_0000), reserved(0x20_0000, 0x20_0000), usable(0x40_0000, 0x10_0000)]
}

fn overlap(a: u64, a_size: u64, b: u64, b_size: u64) -> bool {
    a < b + b_size && b < a + a_size
}

#[test]
fn end_to_end_two_usable_regions() {
    let mut map = two_regions();
    let mut allocator = LockedFrameAllocator::new();
    assert_eq!(allocator.init(&mut map), Ok(()));
    // one page holds the descriptions of the regions, ten pages the bitmaps
    assert_eq!(map[0], usable(0x10_1000, 0xF_F000));
    assert_eq!(total_memory(&allocator), 0x20_0000 - 11 * 0x1000);
    let mut frames: Vec<u64> = Vec::new();
    while let Some(frame) = allocator.allocate_frame() {
        frames.push(frame.start_addr().0);
        assert!(frames.len() <= 512);
    }
    assert_eq!(frames.len() as u64, (0x20_0000 - 11 * 0x1000) / 0x1000);
    assert_eq!(allocator.allocate_frame(), None);
    assert_eq!(allocator.alloc_bytes(0x20_0000), None);
    frames.sort();
    for pair in frames.windows(2) {
        assert!(pair[0] + 0x1000 <= pair[1]);
    }
    for frame in frames.iter() {
        assert_eq!(frame % 0x1000, 0);
        let first = *frame >= 0x10_B000 && *frame < 0x20_0000;
        let second = *frame >= 0x40_0000 && *frame < 0x50_0000;
        assert!(first || second);
    }
}

#[test]
fn live_allocations_never_overlap() {
    let mut map = two_regions();
    let mut allocator = BuddyFrameAllocator::new(&mut map).unwrap();
    let mut live: Vec<(u64, usize)> = Vec::new();
    let orders = [0usize, 3, 1, 0, 5, 2, 0, 7, 1, 4, 0, 6, 2, 3, 0];
    for round in 0..6 {
        for order in orders {
            if let Some(addr) = allocator.allocate_frame(order) {
                let size = buddy_size(order);
                assert_eq!(addr.0 % size, 0);
                for (other, other_order) in live.iter() {
                    assert!(!overlap(addr.0, size, *other, buddy_size(*other_order)));
                }
                live.push((addr.0, order));
            }
        }
        let mut kept: Vec<(u64, usize)> = Vec::new();
        for (i, (addr, order)) in live.iter().enumerate() {
            if (i + round) % 3 == 0 {
                kept.push((*addr, *order));
            } else {
                allocator.deallocate_frame(PhysAddr::new(*addr), *order);
            }
        }
        live = kept;
    }
}

#[test]
fn two_frames_are_apart_and_coalesce() {
    let mut map = vec![usable(0x20_0000, 0x20_0000)];
    let mut allocator = LockedFrameAllocator::new();
    assert_eq!(allocator.init(&mut map), Ok(()));
    let a = allocator.allocate_frame().unwrap();
    let b = allocator.allocate_frame().unwrap();
    assert!(!overlap(a.start_addr().0, 0x1000, b.start_addr().0, 0x1000));
    allocator.deallocate_frame(a);
    allocator.deallocate_frame(b);
    assert!(allocator.alloc_bytes(0x2000).is_some());
}

#[test]
fn buddies_coalesce_only_when_both_are_free() {
    // one page holds the descriptions, three pages the bitmaps of the classes
    // up to 16 KiB; the free memory is the three pages from 0x204000 on
    let mut map = vec![usable(0x20_0000, 0x7000), reserved(0x20_7000, 0x1000)];
    let mut allocator = LockedFrameAllocator::new();
    assert_eq!(allocator.init(&mut map), Ok(()));
    assert_eq!(total_memory(&allocator), 0x3000);
    let a = allocator.alloc_bytes(0x1000).unwrap();
    let b = allocator.alloc_bytes(0x1000).unwrap();
    let c = allocator.alloc_bytes(0x1000).unwrap();
    assert_eq!(allocator.alloc_bytes(0x1000), None);
    assert_eq!((a.0, b.0, c.0), (0x20_6000, 0x20_4000, 0x20_5000));
    // 0x204000 and 0x205000 are buddies in the block of 8 KiB at 0x204000
    allocator.dealloc(PhysAddr::new(0x20_4000), 0x1000);
    assert_eq!(allocator.alloc_bytes(0x2000), None);
    allocator.dealloc(PhysAddr::new(0x20_5000), 0x1000);
    assert_eq!(allocator.alloc_bytes(0x2000), Some(PhysAddr::new(0x20_4000)));
    assert_eq!(allocator.alloc_bytes(0x1000), None);
    // the frame at 0x206000 has its buddy at 0x207000, outside the free memory
    allocator.dealloc(PhysAddr::new(0x20_6000), 0x1000);
    assert_eq!(allocator.alloc_bytes(0x2000), None);
    assert_eq!(allocator.alloc_bytes(0x1000), Some(PhysAddr::new(0x20_6000)));
}

#[test]
fn a_larger_block_is_split_from_the_bottom() {
    let mut map = vec![usable(0x40_0000 - 0xB000, 0x20_B000)];
    let mut allocator = BuddyFrameAllocator::new(&mut map).unwrap();
    // the free memory is the block of 2 MiB at 0x400000
    assert_eq!(allocator.allocate_frame(0), Some(PhysAddr::new(0x40_0000)));
    assert_eq!(allocator.allocate_frame(0), Some(PhysAddr::new(0x40_1000)));
    assert_eq!(allocator.allocate_frame(1), Some(PhysAddr::new(0x40_2000)));
    assert_eq!(allocator.allocate_frame(8), Some(PhysAddr::new(0x50_0000)));
    assert_eq!(allocator.allocate_frame(9), None);
    assert_eq!(allocator.allocate_frame(2), Some(PhysAddr::new(0x40_4000)));
    allocator.deallocate_frame(PhysAddr::new(0x40_0000), 0);
    allocator.deallocate_frame(PhysAddr::new(0x40_1000), 0);
    allocator.deallocate_frame(PhysAddr::new(0x40_2000), 1);
    allocator.deallocate_frame(PhysAddr::new(0x40_4000), 2);
    allocator.deallocate_frame(PhysAddr::new(0x50_0000), 8);
    assert_eq!(allocator.allocate_frame(9), Some(PhysAddr::new(0x40_0000)));
}

#[test]
fn size_classes() {
    assert_eq!(buddy_size(0), 0x1000);
    assert_eq!(buddy_size(1), 0x2000);
    assert_eq!(buddy_size(9), 0x20_0000);
    assert_eq!(LockedFrameAllocator::order_from_size(0), 0);
    assert_eq!(LockedFrameAllocator::order_from_size(1), 0);
    assert_eq!(LockedFrameAllocator::order_from_size(0x1000), 0);
    assert_eq!(LockedFrameAllocator::order_from_size(0x1001), 1);
    assert_eq!(LockedFrameAllocator::order_from_size(0x2000), 1);
    assert_eq!(LockedFrameAllocator::order_from_size(0x4000), 2);
    assert_eq!(LockedFrameAllocator::order_from_size(0x10_0001), 9);
    assert_eq!(LockedFrameAllocator::order_from_size(0x20_0000), 9);
}

#[test]
fn buddies_and_orders() {
    assert_eq!(BuddyFrameAllocator::get_buddy(PhysAddr::new(0x2000), 0), PhysAddr::new(0x3000));
    assert_eq!(BuddyFrameAllocator::get_buddy(PhysAddr::new(0x3000), 0), PhysAddr::new(0x2000));
    assert_eq!(BuddyFrameAllocator::get_buddy(PhysAddr::new(0x4000), 1), PhysAddr::new(0x6000));
    assert_eq!(BuddyFrameAllocator::get_buddy(PhysAddr::new(0x6000), 1), PhysAddr::new(0x4000));
    assert_eq!(BuddyFrameAllocator::get_buddy(PhysAddr::new(0), 8), PhysAddr::new(0x10_0000));
    assert_eq!(BuddyFrameAllocator::find_order(PhysAddr::new(0x20_0000), 0x20_0000), 9);
    assert_eq!(BuddyFrameAllocator::find_order(PhysAddr::new(0x20_0000), 0x1F_F000), 8);
    assert_eq!(BuddyFrameAllocator::find_order(PhysAddr::new(0x1000), 0x20_0000), 0);
    assert_eq!(BuddyFrameAllocator::find_order(PhysAddr::new(0x6000), 0x20_0000), 1);
    assert_eq!(BuddyFrameAllocator::find_order(PhysAddr::new(0x8000), 0x3000), 1);
    assert_eq!(BuddyFrameAllocator::find_order(PhysAddr::new(0x8000), 0x800), 0);
}

#[test]
fn a_map_without_usable_entry_has_no_metadata_region() {
    let mut map = vec![reserved(0x10_0000, 0x10_0000)];
    assert_eq!(BuddyFrameAllocator::new(&mut map).err(), Some(InitError::NoMetadataRegion));
    assert_eq!(map, vec![reserved(0x10_0000, 0x10_0000)]);
    let mut empty: Vec<MemoryMapEntry> = Vec::new();
    assert_eq!(BuddyFrameAllocator::new(&mut empty).err(), Some(InitError::NoMetadataRegion));
    let mut small = vec![usable(0x10_0000, 0xfff)];
    assert_eq!(BuddyFrameAllocator::new(&mut small).err(), Some(InitError::NoMetadataRegion));
}

#[test]
fn a_map_whose_only_page_holds_the_metadata_has_no_usable_memory() {
    let mut map = vec![usable(0x10_0000, 0x1000)];
    assert_eq!(BuddyFrameAllocator::new(&mut map).err(), Some(InitError::NoUsableMemory));
    assert_eq!(map, vec![usable(0x10_1000, 0)]);
}

#[test]
fn regions_out_of_order_are_refused() {
    let mut map = vec![usable(0x40_0000, 0x10_0000), usable(0x10_0000, 0x10_0000)];
    assert_eq!(BuddyFrameAllocator::new(&mut map).err(), Some(InitError::UnsortedMemoryMap));
    let mut overlapping = vec![usable(0x10_0000, 0x10_0000), usable(0x18_0000, 0x10_0000)];
    assert_eq!(
        BuddyFrameAllocator::new(&mut overlapping).err(),
        Some(InitError::UnsortedMemoryMap)
    );
}

#[test]
fn too_little_memory_for_the_bitmaps() {
    // one page for the descriptions, eight pages left: the bitmaps of the
    // classes up to 32 KiB take four of them, the other classes have no bit
    let mut fits = vec![usable(0x10_0000, 0x9000)];
    let allocator = BuddyFrameAllocator::new(&mut fits);
    assert!(allocator.is_ok());
    // one page for the descriptions, two pages left, but the bitmaps of the
    // classes of 4 KiB and 8 KiB need one page each and a third bitmap none
    let mut tight = vec![usable(0x10_0000, 0x3000)];
    let mut tight_allocator = BuddyFrameAllocator::new(&mut tight).unwrap();
    assert_eq!(tight_allocator.allocate_frame(0), None);
    // the region of one page goes to the first bitmap, the second finds none
    let mut short = vec![usable(0x10_0000, 0x2000), usable(0x20_0000, 0x1000)];
    assert_eq!(
        BuddyFrameAllocator::new(&mut short).err(),
        Some(InitError::OutOfBootstrapMemory)
    );
}

#[test]
fn the_descriptions_are_taken_from_the_first_entry_that_holds_them() {
    let mut map = vec![
        reserved(0, 0x1000),
        usable(0x1000, 0x800),
        usable(0x10_0000, 0x4000),
        usable(0x20_0000, 0x4000),
    ];
    assert!(reserve_descriptor_space(&mut map));
    assert_eq!(
        map,
        vec![
            reserved(0, 0x1000),
            usable(0x1000, 0x800),
            usable(0x10_1000, 0x3000),
            usable(0x20_0000, 0x4000),
        ]
    );
}

#[test]
fn an_allocator_that_was_not_initialized_has_no_memory() {
    let mut allocator = LockedFrameAllocator::new();
    assert_eq!(total_memory(&allocator), 0);
    assert_eq!(allocator.allocate_frame(), None);
    assert_eq!(allocator.alloc_bytes(0x1000), None);
    let mut map = vec![reserved(0, 0x1000)];
    assert_eq!(allocator.init(&mut map), Err(InitError::NoMetadataRegion));
    assert_eq!(allocator.allocate_frame(), None);
}

#[test]
fn frames_of_the_allocator_are_page_aligned() {
    let mut map = vec![usable(0x10_0800, 0x10_0000)];
    let mut allocator = LockedFrameAllocator::new();
    assert_eq!(allocator.init(&mut map), Ok(()));
    let frame: Frame = allocator.allocate_frame().unwrap();
    assert_eq!(frame.start_addr().0 % 0x1000, 0);
    assert!(frame.start_addr().0 >= 0x10_2000);
}
