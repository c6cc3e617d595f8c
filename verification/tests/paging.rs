use molecule::arch::x86_64::paging::address_space::AddressSpace;
use molecule::arch::x86_64::paging::page_table::{
    PageTable, PageTableEntry, PageTableFlags, ADDR_MASK, HUGE_PAGE, NO_EXECUTE, PRESENT,
    TABLE_FLAGS, USER_ACCESSIBLE, WRITEABLE,
};
use molecule::arch::x86_64::paging::PageMap;
use molecule::memory::addr::{PhysAddr, VirtAddr};
use molecule::memory::frame::{Frame, FrameAllocator, FrameError, LockedFrameAllocator};
use molecule::memory::heap::{init_heap, HEAP_SIZE, HEAP_START};
use molecule::memory::memmap::{EntryType, MemoryMapEntry};
use molecule::memory::page::Page;
use molecule::memory::physical::PhysicalMemory;
use molecule::memory::{MapError, UnmapError, VirtualMemoryManager};

fn machine(pages: u64) -> (PhysicalMemory, LockedFrameAllocator) {
    let base = 0x10_0000;
    let mut map = vec![MemoryMapEntry {
        base,
        length: pages * 0x1000,
        entry_type: EntryType::Usable,
    }];
    let mut frames = LockedFrameAllocator::new();
    assert_eq!(frames.init(&mut map), Ok(()));
    (PhysicalMemory::new(PhysAddr::new(base), pages as usize), frames)
}

fn page(addr: u64) -> Page {
    Page::containing_addr(VirtAddr::new(addr))
}

fn rw() -> PageTableFlags {
    PageTableFlags::from_bits_truncate(PRESENT | WRITEABLE)
}

fn free_frames(frames: &mut LockedFrameAllocator) -> usize {
    let mut taken = Vec::new();
    while let Some(frame) = frames.allocate_frame() {
        taken.push(frame);
    }
    for frame in taken.iter() {
        frames.deallocate_frame(*frame);
    }
    taken.len()
}

#[test]
fn map_translate_unmap_round_trip() {
    let (mut mem, mut frames) = machine(64);
    let map = PageMap::empty(&mut mem, &mut frames).unwrap();
    let v = 0xFFFF_8000_1234_5000u64;
    assert_eq!(map.translate_addr(&mem, VirtAddr::new(v)), None);
    let frame = frames.allocate_frame().unwrap();
    assert_eq!(map.map_page(&mut mem, &mut frames, page(v), frame, rw()), Ok(frame));
    for offset in [0u64, 1, 0x123, 0xFFF] {
        assert_eq!(
            map.translate_addr(&mem, VirtAddr::new(v + offset)),
            Some(PhysAddr::new(frame.start_addr().0 + offset))
        );
    }
    assert_eq!(map.translate_page(&mem, page(v)), Ok(frame));
    assert_eq!(map.translate_addr(&mem, VirtAddr::new(v + 0x1000)), None);
    assert_eq!(map.translate_addr(&mem, VirtAddr::new(v - 1)), None);
    assert_eq!(map.unmap_page(&mut mem, page(v)), Ok(frame));
    assert_eq!(map.translate_addr(&mem, VirtAddr::new(v)), None);
    assert_eq!(map.translate_page(&mem, page(v)), Err(FrameError::FrameNotPresent));
    assert_eq!(map.unmap_page(&mut mem, page(v)), Err(UnmapError::PageNotMapped));
}

#[test]
fn mapping_a_page_twice_is_rejected() {
    let (mut mem, mut frames) = machine(64);
    let map = PageMap::empty(&mut mem, &mut frames).unwrap();
    let v = 0x0000_0000_4000_0000u64;
    let first = frames.allocate_frame().unwrap();
    let second = frames.allocate_frame().unwrap();
    assert_eq!(map.map_page(&mut mem, &mut frames, page(v), first, rw()), Ok(first));
    let left = free_frames(&mut frames);
    assert_eq!(
        map.map_page(&mut mem, &mut frames, page(v), second, rw()),
        Err(MapError::PageAlreadyMapped(first))
    );
    assert_eq!(map.translate_page(&mem, page(v)), Ok(first));
    assert_eq!(free_frames(&mut frames), left);
    assert_eq!(map.unmap_page(&mut mem, page(v)), Ok(first));
    assert_eq!(map.map_page(&mut mem, &mut frames, page(v), second, rw()), Ok(second));
    assert_eq!(map.translate_page(&mem, page(v)), Ok(second));
}

#[test]
fn missing_tables_are_made_on_demand() {
    let (mut mem, mut frames) = machine(64);
    let map = PageMap::empty(&mut mem, &mut frames).unwrap();
    let before = free_frames(&mut frames);
    let frame = frames.allocate_frame().unwrap();
    let v = 0xFFFF_FE80_0000_0000u64;
    assert_eq!(map.map_page(&mut mem, &mut frames, page(v), frame, rw()), Ok(frame));
    // three tables and the frame
    assert_eq!(free_frames(&mut frames), before - 4);
    // a page next to it needs no table
    let next = frames.allocate_frame().unwrap();
    assert_eq!(map.map_page(&mut mem, &mut frames, page(v + 0x1000), next, rw()), Ok(next));
    assert_eq!(free_frames(&mut frames), before - 5);
    // a page in the next table of level 1 needs one table
    let far = frames.allocate_frame().unwrap();
    assert_eq!(map.map_page(&mut mem, &mut frames, page(v + 0x20_0000), far, rw()), Ok(far));
    assert_eq!(free_frames(&mut frames), before - 7);
    assert_eq!(map.translate_page(&mem, page(v)), Ok(frame));
    assert_eq!(map.translate_page(&mem, page(v + 0x1000)), Ok(next));
    assert_eq!(map.translate_page(&mem, page(v + 0x20_0000)), Ok(far));
}

#[test]
fn mapping_fails_when_no_frame_is_left_for_a_table() {
    // one page for the descriptions, three for bitmaps, four free
    let (mut mem, mut frames) = machine(8);
    assert_eq!(free_frames(&mut frames), 4);
    let map = PageMap::empty(&mut mem, &mut frames).unwrap();
    let frame = frames.allocate_frame().unwrap();
    let v = 0x1000u64;
    // three tables are missing and two frames are free
    assert_eq!(
        map.map_page(&mut mem, &mut frames, page(v), frame, rw()),
        Err(MapError::AllocationFailed)
    );
    assert_eq!(frames.allocate_frame(), None);
    assert_eq!(map.translate_addr(&mem, VirtAddr::new(v)), None);
    assert_eq!(PageMap::empty(&mut mem, &mut frames).map(|_| ()), None);
}

#[test]
fn an_entry_of_level_two_with_the_huge_flag_maps_a_large_page() {
    let (mut mem, mut frames) = machine(64);
    let map = PageMap::empty(&mut mem, &mut frames).unwrap();
    let v = 0x0000_0000_0060_0000u64;
    let frame = frames.allocate_frame().unwrap();
    assert_eq!(map.map_page(&mut mem, &mut frames, page(v), frame, rw()), Ok(frame));
    let root = map.root_addr();
    let l3 = PhysAddr::new(mem.read(root, 0) & ADDR_MASK);
    let l2 = PhysAddr::new(mem.read(l3, 0) & ADDR_MASK);
    // entry 2 of the table of level 2 maps the 2 MiB from 0x400000 on
    mem.write(l2, 2, 0x4000_0000 | PRESENT | WRITEABLE | HUGE_PAGE);
    assert_eq!(
        map.translate_addr(&mem, VirtAddr::new(0x40_0000 + 0x12_3456)),
        Some(PhysAddr::new(0x4000_0000 + 0x12_3456))
    );
    assert_eq!(
        map.translate_page(&mem, page(0x40_0000)),
        Err(FrameError::HugePageNotSupported)
    );
    assert_eq!(map.unmap_page(&mut mem, page(0x40_0000)), Err(UnmapError::ParentEntryHugePage));
    assert_eq!(map.translate_page(&mem, page(v)), Ok(frame));
}

#[test]
fn the_trait_gives_what_the_page_map_gives() {
    let (mut mem, mut frames) = machine(64);
    let map = PageMap::empty(&mut mem, &mut frames).unwrap();
    let v = 0x0000_7000_0000_0000u64;
    let frame = frames.allocate_frame().unwrap();
    assert_eq!(
        VirtualMemoryManager::map_page(&map, &mut mem, &mut frames, page(v), frame, rw()),
        Ok(frame)
    );
    assert_eq!(
        VirtualMemoryManager::translate_addr(&map, &mem, VirtAddr::new(v + 8)),
        Some(PhysAddr::new(frame.start_addr().0 + 8))
    );
    assert_eq!(VirtualMemoryManager::translate_page(&map, &mem, page(v)), Ok(frame));
    assert_eq!(VirtualMemoryManager::unmap_page(&map, &mut mem, page(v)), Ok(frame));
    assert_eq!(VirtualMemoryManager::translate_addr(&map, &mem, VirtAddr::new(v)), None);
}

#[test]
fn flags_are_kept_in_the_entry() {
    let (mut mem, mut frames) = machine(64);
    let map = PageMap::empty(&mut mem, &mut frames).unwrap();
    let v = 0x0000_0000_0000_3000u64;
    let frame = frames.allocate_frame().unwrap();
    let flags = PageTableFlags::from_bits_truncate(PRESENT | USER_ACCESSIBLE | NO_EXECUTE);
    assert_eq!(map.map_page(&mut mem, &mut frames, page(v), frame, flags), Ok(frame));
    let root = map.root_addr();
    let l3 = PhysAddr::new(mem.read(root, 0) & ADDR_MASK);
    let l2 = PhysAddr::new(mem.read(l3, 0) & ADDR_MASK);
    let l1 = PhysAddr::new(mem.read(l2, 0) & ADDR_MASK);
    assert_eq!(mem.read(root, 0), l3.0 | TABLE_FLAGS);
    assert_eq!(mem.read(l1, 3), frame.start_addr().0 | PRESENT | USER_ACCESSIBLE | NO_EXECUTE);
    for index in 0..512usize {
        if index != 3 {
            assert_eq!(mem.read(l1, index), 0);
        }
    }
}

#[test]
fn entries_pack_address_and_flags() {
    let mut entry = PageTableEntry(0);
    assert!(entry.is_unused());
    assert_eq!(entry.frame(), Err(FrameError::FrameNotPresent));
    entry.set_frame(Frame::containing_addr(PhysAddr::new(0x1234_5000)), rw());
    assert_eq!(entry.0, 0x1234_5003);
    assert!(!entry.is_unused());
    assert_eq!(entry.addr(), PhysAddr::new(0x1234_5000));
    assert_eq!(entry.flags().bits(), 3);
    assert_eq!(entry.frame(), Ok(Frame::containing_addr(PhysAddr::new(0x1234_5000))));
    entry.set_flags(PageTableFlags::from_bits_truncate(PRESENT | HUGE_PAGE | NO_EXECUTE));
    assert_eq!(entry.0, 0x8000_0000_1234_5081);
    assert_eq!(entry.frame(), Err(FrameError::HugePageNotSupported));
    entry.set_addr(PhysAddr::new(0xF_FFFF_FFFF_F000), PageTableFlags::empty());
    assert_eq!(entry.0, 0x000F_FFFF_FFFF_F000);
    assert_eq!(entry.frame(), Err(FrameError::FrameNotPresent));
    entry.set_unused();
    assert_eq!(entry.0, 0);
}

#[test]
fn flags_drop_the_bits_that_are_no_flag() {
    assert_eq!(PageTableFlags::from_bits_truncate(u64::MAX).bits(), 0x8000_0000_0000_01FF);
    assert_eq!(PageTableFlags::from_bits_truncate(0x1000).bits(), 0);
    let flags = rw();
    assert!(flags.contains(PageTableFlags::from_bits_truncate(PRESENT)));
    assert!(!flags.contains(PageTableFlags::from_bits_truncate(HUGE_PAGE)));
    assert!(!flags.contains(PageTableFlags::from_bits_truncate(PRESENT | HUGE_PAGE)));
    assert_eq!(flags.union(PageTableFlags::from_bits_truncate(NO_EXECUTE)).bits(), 0x8000_0000_0000_0003);
    assert_eq!(PageTableFlags::empty().bits(), 0);
}

#[test]
fn a_page_table_has_512_entries() {
    let mut table = PageTable::new();
    table.set_entry(511, PageTableEntry(0x1003));
    table.set_entry(0, PageTableEntry(7));
    assert_eq!(table.entry(511), PageTableEntry(0x1003));
    assert_eq!(table.entry(0), PageTableEntry(7));
    assert_eq!(table.entry(1), PageTableEntry(0));
    table.zero();
    for index in 0..512usize {
        assert!(table.entry(index).is_unused());
    }
}

#[test]
fn physical_memory_reads_what_was_written() {
    let mut mem = PhysicalMemory::new(PhysAddr::new(0x10_0000), 4);
    assert!(mem.holds(PhysAddr::new(0x10_0000)));
    assert!(mem.holds(PhysAddr::new(0x10_3000)));
    assert!(!mem.holds(PhysAddr::new(0x10_4000)));
    assert!(!mem.holds(PhysAddr::new(0xF_F000)));
    assert!(!mem.holds(PhysAddr::new(0x10_0008)));
    mem.write(PhysAddr::new(0x10_1000), 511, 0xDEAD);
    mem.write(PhysAddr::new(0x10_2000), 0, 0xBEEF);
    assert_eq!(mem.read(PhysAddr::new(0x10_1000), 511), 0xDEAD);
    assert_eq!(mem.read(PhysAddr::new(0x10_2000), 0), 0xBEEF);
    assert_eq!(mem.read(PhysAddr::new(0x10_1000), 510), 0);
    mem.zero_frame(PhysAddr::new(0x10_1000));
    assert_eq!(mem.read(PhysAddr::new(0x10_1000), 511), 0);
    assert_eq!(mem.read(PhysAddr::new(0x10_2000), 0), 0xBEEF);
}

#[test]
fn address_spaces_share_the_kernel_half_only() {
    let (mut mem, mut frames) = machine(128);
    let active = PageMap::empty(&mut mem, &mut frames).unwrap();
    let kernel = 0xFFFF_8000_0010_0000u64;
    let user = 0x0000_0000_0040_0000u64;
    let kernel_frame = frames.allocate_frame().unwrap();
    let user_frame = frames.allocate_frame().unwrap();
    assert_eq!(
        active.map_page(&mut mem, &mut frames, page(kernel), kernel_frame, rw()),
        Ok(kernel_frame)
    );
    assert_eq!(
        active.map_page(&mut mem, &mut frames, page(user), user_frame, rw()),
        Ok(user_frame)
    );
    let first = AddressSpace::new(&mut mem, &mut frames, &active).unwrap();
    let second = AddressSpace::new(&mut mem, &mut frames, &active).unwrap();
    assert_ne!(first.switch(), second.switch());
    assert_ne!(first.switch(), active.root_addr().0);
    assert_eq!(first.switch() % 0x1000, 0);
    let a = first.page_map();
    let b = second.page_map();
    assert_eq!(a.root_addr().0, first.switch());
    for offset in [0u64, 0x10, 0xFFF] {
        let expected = Some(PhysAddr::new(kernel_frame.start_addr().0 + offset));
        assert_eq!(a.translate_addr(&mem, VirtAddr::new(kernel + offset)), expected);
        assert_eq!(b.translate_addr(&mem, VirtAddr::new(kernel + offset)), expected);
        assert_eq!(a.translate_addr(&mem, VirtAddr::new(user + offset)), None);
        assert_eq!(b.translate_addr(&mem, VirtAddr::new(user + offset)), None);
    }
    assert_eq!(active.translate_page(&mem, page(user)), Ok(user_frame));
    // a mapping in the user half of one space is not seen in the other
    let own = frames.allocate_frame().unwrap();
    assert_eq!(a.map_page(&mut mem, &mut frames, page(user), own, rw()), Ok(own));
    assert_eq!(a.translate_page(&mem, page(user)), Ok(own));
    assert_eq!(b.translate_page(&mem, page(user)), Err(FrameError::FrameNotPresent));
    assert_eq!(active.translate_page(&mem, page(user)), Ok(user_frame));
}

#[test]
fn an_address_space_needs_a_frame() {
    let (mut mem, mut frames) = machine(8);
    let active = PageMap::empty(&mut mem, &mut frames).unwrap();
    assert!(AddressSpace::new(&mut mem, &mut frames, &active).is_ok());
    assert!(AddressSpace::new(&mut mem, &mut frames, &active).is_ok());
    assert!(AddressSpace::new(&mut mem, &mut frames, &active).is_ok());
    assert_eq!(
        AddressSpace::new(&mut mem, &mut frames, &active).map(|_| ()),
        Err(MapError::AllocationFailed)
    );
}

#[test]
fn the_active_address_space_is_named_by_the_register() {
    let space = AddressSpace::this(0x0000_0000_1234_5018);
    assert_eq!(space.switch(), 0x1234_5000);
    assert_eq!(space.page_map().root_addr(), PhysAddr::new(0x1234_5000));
    assert_eq!(PageMap::from_cr3(PhysAddr::new(0x7000)).root_addr(), PhysAddr::new(0x7000));
}

#[test]
fn the_heap_is_mapped_page_by_page() {
    let (mut mem, mut frames) = machine(4096);
    let map = PageMap::empty(&mut mem, &mut frames).unwrap();
    let before = free_frames(&mut frames);
    assert_eq!(init_heap(&map, &mut mem, &mut frames), Ok(()));
    // 2048 pages, and one table of level 3, one of level 2, four of level 1
    assert_eq!(free_frames(&mut frames), before - 2048 - 6);
    let mut seen: Vec<u64> = Vec::new();
    let mut addr = HEAP_START;
    while addr < HEAP_START + HEAP_SIZE {
        let frame = map.translate_page(&mem, page(addr)).unwrap();
        seen.push(frame.start_addr().0);
        assert_eq!(
            map.translate_addr(&mem, VirtAddr::new(addr + 0x21)),
            Some(PhysAddr::new(frame.start_addr().0 + 0x21))
        );
        addr += 0x1000;
    }
    seen.sort();
    seen.dedup();
    assert_eq!(seen.len(), 2048);
    assert_eq!(map.translate_addr(&mem, VirtAddr::new(HEAP_START + HEAP_SIZE)), None);
    assert_eq!(map.translate_addr(&mem, VirtAddr::new(HEAP_START - 1)), None);
    // a second time, the first page is mapped already
    let first = map.translate_page(&mem, page(HEAP_START)).unwrap();
    assert_eq!(
        init_heap(&map, &mut mem, &mut frames),
        Err(MapError::PageAlreadyMapped(first))
    );
}

#[test]
fn the_heap_needs_frames() {
    let (mut mem, mut frames) = machine(1024);
    let map = PageMap::empty(&mut mem, &mut frames).unwrap();
    assert_eq!(init_heap(&map, &mut mem, &mut frames), Err(MapError::AllocationFailed));
    assert_eq!(frames.allocate_frame(), None);
}
