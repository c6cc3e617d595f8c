use molecule::memory::addr::PhysAddr;
use molecule::memory::bootstrap::BootstrapAlloc;
use molecule::memory::frame::collect_regions;
use molecule::memory::memmap::{
    region_of_entry, EntryType, MemoryMapEntry, MemoryRegion, MemoryRegionIter, MemoryRegionType,
};

fn usable(base: u64, length: u64) -> MemoryMapEntry {
    MemoryMapEntry { base, length, entry_type: EntryType::Usable }
}

fn free(base: u64, size: u64) -> MemoryRegion {
    MemoryRegion { base: PhysAddr::new(base), size, region_type: MemoryRegionType::Free }
}

#[test]
fn aligned_usable_entries_come_back_as_they_are() {
    let entries = vec![usable(0x10_0000, 0x10_0000), usable(0x40_0000, 0x10_0000)];
    let regions = collect_regions(&entries);
    assert_eq!(regions, vec![free(0x10_0000, 0x10_0000), free(0x40_0000, 0x10_0000)]);
}

#[test]
fn normalizing_twice_changes_nothing() {
    let entries = vec![
        usable(0x10_0800, 0x10_0000),
        MemoryMapEntry { base: 0x20_0000, length: 0x1000, entry_type: EntryType::Reserved },
        usable(0x40_0000, 0x2345),
    ];
    let once = collect_regions(&entries);
    let again: Vec<MemoryMapEntry> = once.iter().map(|r| usable(r.base.0, r.size)).collect();
    assert_eq!(collect_regions(&again), once);
}

#[test]
fn entries_that_are_not_usable_are_skipped() {
    let kinds = [
        EntryType::Reserved,
        EntryType::AcpiReclaimable,
        EntryType::AcpiNvs,
        EntryType::BadMemory,
        EntryType::BootloaderReclaimable,
        EntryType::ExecutableAndModules,
        EntryType::Framebuffer,
    ];
    for kind in kinds {
        let entry = MemoryMapEntry { base: 0x1000, length: 0x1000, entry_type: kind };
        assert_eq!(region_of_entry(&entry), None);
    }
    assert_eq!(region_of_entry(&usable(0x1000, 0x1000)), Some(free(0x1000, 0x1000)));
}

#[test]
fn regions_are_clipped_to_whole_pages() {
    assert_eq!(region_of_entry(&usable(0x1001, 0x3000)), Some(free(0x2000, 0x2000)));
    assert_eq!(region_of_entry(&usable(0x1000, 0x1fff)), Some(free(0x1000, 0x1000)));
    assert_eq!(region_of_entry(&usable(0x1001, 0x1ffe)), None);
    assert_eq!(region_of_entry(&usable(0x1000, 0)), None);
    assert_eq!(region_of_entry(&usable(0x1000, 0xfff)), None);
    assert_eq!(
        region_of_entry(&usable(0xFFFF_FFFF_FFFF_E000, u64::MAX)),
        Some(free(0xFFFF_FFFF_FFFF_E000, 0x1000))
    );
}

#[test]
fn the_iterator_hands_out_each_region_once() {
    let entries = vec![
        MemoryMapEntry { base: 0, length: 0x1000, entry_type: EntryType::Reserved },
        usable(0x10_0000, 0x2000),
        usable(0x20_0000, 0),
        usable(0x40_0000, 0x1000),
    ];
    let mut iter = MemoryRegionIter::new(&entries);
    assert_eq!(iter.next(), Some(free(0x10_0000, 0x2000)));
    assert_eq!(iter.next(), Some(free(0x40_0000, 0x1000)));
    assert_eq!(iter.next(), None);
    assert_eq!(iter.next(), None);
}

#[test]
fn the_bootstrap_allocator_takes_the_first_fit() {
    let mut bootstrap = BootstrapAlloc::new(vec![
        free(0x1000, 0x1000),
        free(0x10_0000, 0x4000),
        free(0x20_0000, 0x8000),
    ]);
    assert_eq!(bootstrap.allocate(0x1001), Some(PhysAddr::new(0x10_0000)));
    assert_eq!(bootstrap.memory_ranges[1], free(0x10_2000, 0x2000));
    assert_eq!(bootstrap.allocate(1), Some(PhysAddr::new(0x1000)));
    assert_eq!(bootstrap.memory_ranges[0], free(0x2000, 0));
    assert_eq!(bootstrap.allocate(0x2000), Some(PhysAddr::new(0x10_2000)));
    assert_eq!(bootstrap.allocate(0x1000), Some(PhysAddr::new(0x20_0000)));
    assert_eq!(bootstrap.allocate(0x8000), None);
    assert_eq!(bootstrap.allocate(u64::MAX), None);
    assert_eq!(bootstrap.allocate(0x7000), Some(PhysAddr::new(0x20_1000)));
    assert_eq!(bootstrap.allocate(1), None);
}

#[test]
fn a_request_of_zero_bytes_takes_nothing() {
    let mut bootstrap = BootstrapAlloc::new(vec![free(0x1000, 0x1000)]);
    assert_eq!(bootstrap.allocate(0), Some(PhysAddr::new(0x1000)));
    assert_eq!(bootstrap.memory_ranges[0], free(0x1000, 0x1000));
}
