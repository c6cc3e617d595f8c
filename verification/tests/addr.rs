use molecule::memory::addr::{align_down, align_up, AddrError, PhysAddr, VirtAddr};
use molecule::memory::frame::Frame;
use molecule::memory::page::Page;

#[test]
fn align_up_rounds_to_the_next_multiple() {
    assert_eq!(align_up(0x1001, 0x1000), 0x2000);
    assert_eq!(align_up(0x1000, 0x1000), 0x1000);
    assert_eq!(align_up(0, 0x1000), 0);
    assert_eq!(align_up(1, 2), 2);
    assert_eq!(align_up(0x1234, 1), 0x1234);
    assert_eq!(align_up(48, 4096), 4096);
}

#[test]
fn align_down_rounds_to_the_previous_multiple() {
    assert_eq!(align_down(0x1fff, 0x1000), 0x1000);
    assert_eq!(align_down(0x1000, 0x1000), 0x1000);
    assert_eq!(align_down(0xfff, 0x1000), 0);
    assert_eq!(align_down(0x20_1234, 0x20_0000), 0x20_0000);
}

#[test]
fn align_up_at_the_top_of_the_address_space() {
    assert_eq!(align_up(0xFFFF_FFFF_FFFF_F000, 0x1000), 0xFFFF_FFFF_FFFF_F000);
    assert_eq!(align_down(u64::MAX, 0x1000), 0xFFFF_FFFF_FFFF_F000);
}

#[test]
fn hhdm_translation_adds_the_offset() {
    let phys = PhysAddr::new(0x1234_5000);
    let virt = phys.as_hddm_virt(VirtAddr::new(0xFFFF_8000_0000_0000));
    assert_eq!(u64::from(virt), 0xFFFF_8000_1234_5000);
    assert_eq!(u64::from(phys), 0x1234_5000);
}

#[test]
fn null_addresses_are_null() {
    assert!(PhysAddr::null().is_null());
    assert!(VirtAddr::null().is_null());
    assert!(!PhysAddr::new(1).is_null());
    assert!(!VirtAddr::new(0x1000).is_null());
}

#[test]
fn physical_address_arithmetic() {
    let a = PhysAddr::new(0x1800);
    assert_eq!(a.align_up(0x1000), PhysAddr::new(0x2000));
    assert_eq!(a.align_down(0x1000), PhysAddr::new(0x1000));
    assert!(!a.is_aligned(0x1000));
    assert!(a.is_aligned(0x800));
    assert_eq!(a.offset(0x800), PhysAddr::new(0x2000));
    assert_eq!(PhysAddr::new(0x3000).distance_from(a), 0x1800);
    assert_eq!(VirtAddr::new(0x1fff).align_down(0x1000), VirtAddr::new(0x1000));
    assert_eq!(VirtAddr::new(0x1000).offset(0x10), VirtAddr::new(0x1010));
}

#[test]
fn valid_read_rejects_null_and_misaligned() {
    assert_eq!(VirtAddr::null().valid_read(8), Err(AddrError::NullPointer));
    assert_eq!(VirtAddr::new(0x1004).valid_read(8), Err(AddrError::NotAligned));
    assert_eq!(VirtAddr::new(0x1008).valid_read(8), Ok(()));
    assert_eq!(VirtAddr::new(0x1001).valid_read(1), Ok(()));
}

#[test]
fn frames_and_pages_contain_their_addresses() {
    let frame = Frame::containing_addr(PhysAddr::new(0x12_3456));
    assert_eq!(frame.start_addr(), PhysAddr::new(0x12_3000));
    let page = Page::containing_addr(VirtAddr::new(0xFFFF_8000_0000_1FFF));
    assert_eq!(page.start_addr(), VirtAddr::new(0xFFFF_8000_0000_1000));
    assert_eq!(Page::containing_addr(VirtAddr::new(0x2000)).start_addr(), VirtAddr::new(0x2000));
}

#[test]
fn indices_of_a_virtual_address() {
    let v = VirtAddr::new(0xFFFF_FE80_0020_3ABC);
    assert_eq!(v.p4_index(), 509);
    assert_eq!(v.p3_index(), 0);
    assert_eq!(v.p2_index(), 1);
    assert_eq!(v.p1_index(), 3);
    assert_eq!(v.page_index(), 0xABC);
    let w = VirtAddr::new(0x0000_7FFF_FFFF_FFFF);
    assert_eq!(w.p4_index(), 255);
    assert_eq!(w.p3_index(), 511);
    assert_eq!(w.p2_index(), 511);
    assert_eq!(w.p1_index(), 511);
    assert_eq!(w.page_index(), 0xFFF);
}
