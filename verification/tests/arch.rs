use molecule::arch::x86_64::gdt::{
    kernel_gdt, GdtDescriptor, GdtEntry, GdtEntryFlags, SegmentSelector, KERNEL_CODE_ACCESS,
    KERNEL_CODE_INDEX, KERNEL_DATA_ACCESS, KERNEL_DATA_INDEX, LONG_MODE, PROTECTED_MODE,
};
use molecule::arch::x86_64::interrupts::apic::{
    ioapic_from_redirect, ioapic_set_redirect, ioapic_setup_irq, ApicState, ApicType, IoApicRange,
    IrqOverride, LocalApic, RedirectWrite,
};
use molecule::arch::x86_64::interrupts::handler::{
    InterruptStackFrame, IretRegisters, PreservedRegisters, Register, ScratchRegisters,
};
use molecule::arch::x86_64::interrupts::idt::{
    GateType, Idt, IdtDescriptor, IdtEntry, IdtEntryAttributes,
};
use molecule::arch::x86_64::interrupts::{register_handler, VectorAllocator};
use molecule::arch::x86_64::paging::address_space::AddressSpace;
use molecule::arch::x86_64::process::{ArchProcess, Context};
use molecule::arch::x86_64::PrivilegeLevel;
use molecule::memory::addr::VirtAddr;
use molecule::memory::frame::LockedFrameAllocator;
use molecule::memory::memmap::{EntryType, MemoryMapEntry};
use molecule::process::{Process, ProcessId, ProcessIds};

#[test]
fn privilege_levels_are_rings() {
    assert_eq!(PrivilegeLevel::Kernel.bits(), 0);
    assert_eq!(PrivilegeLevel::User.bits(), 3);
    assert_eq!(PrivilegeLevel::from_ring(0), PrivilegeLevel::Kernel);
    assert_eq!(PrivilegeLevel::from_ring(3), PrivilegeLevel::User);
}

#[test]
fn segment_selectors_pack_index_and_ring() {
    assert_eq!(SegmentSelector::new(KERNEL_CODE_INDEX, PrivilegeLevel::Kernel).bits(), 0x08);
    assert_eq!(SegmentSelector::new(KERNEL_DATA_INDEX, PrivilegeLevel::Kernel).bits(), 0x10);
    assert_eq!(SegmentSelector::new(3, PrivilegeLevel::User).bits(), 0x1B);
    assert_eq!(SegmentSelector::new(0, PrivilegeLevel::User).bits(), 3);
    assert_eq!(SegmentSelector::new(0x1FFF, PrivilegeLevel::Kernel).bits(), 0xFFF8);
    // the upper bits of a larger index are shifted out
    assert_eq!(SegmentSelector::new(0x2001, PrivilegeLevel::Kernel).bits(), 0x0008);
}

#[test]
fn the_kernel_gdt_has_three_entries() {
    let gdt = kernel_gdt();
    assert_eq!(gdt[0], GdtEntry::null());
    assert_eq!(gdt[0].access, 0);
    assert_eq!(gdt[1].access, 0x9A);
    assert_eq!(gdt[1].access, KERNEL_CODE_ACCESS);
    assert_eq!(gdt[1].limit_high_flags, 0x20);
    assert_eq!(gdt[2].access, KERNEL_DATA_ACCESS);
    assert_eq!(gdt[2].limit_high_flags, LONG_MODE);
    for entry in gdt {
        assert_eq!((entry.limit_low, entry.base_low, entry.base_middle, entry.base_high), (0, 0, 0, 0));
    }
    let descriptor = GdtDescriptor::for_table(0xFFFF_8000_0000_1000);
    assert_eq!((descriptor.size, descriptor.offset), (23, 0xFFFF_8000_0000_1000));
    assert_eq!(GdtDescriptor::new(7, 8), GdtDescriptor { size: 7, offset: 8 });
}

#[test]
fn gdt_flags_keep_the_upper_bits_only() {
    assert_eq!(GdtEntryFlags::from_bits_truncate(0xFF).bits(), 0x60);
    assert_eq!(GdtEntryFlags::from_bits_truncate(PROTECTED_MODE).bits(), 0x40);
    assert_eq!(GdtEntryFlags::empty().bits(), 0);
    let entry = GdtEntry::new(0x92, GdtEntryFlags { bits: 0xAF });
    assert_eq!(entry.limit_high_flags, 0xA0);
    assert_eq!(entry.access, 0x92);
}

#[test]
fn idt_attributes_pack_ring_and_gate() {
    assert_eq!(IdtEntryAttributes::default().0, 0x8E);
    assert_eq!(IdtEntryAttributes::new(PrivilegeLevel::User, GateType::Trap).0, 0xEF);
    assert_eq!(IdtEntryAttributes::new(PrivilegeLevel::Kernel, GateType::Trap).0, 0x8F);
    assert_eq!(IdtEntryAttributes::new(PrivilegeLevel::User, GateType::Interrupt).0, 0xEE);
    for privilege in [PrivilegeLevel::Kernel, PrivilegeLevel::User] {
        for gate in [GateType::Interrupt, GateType::Trap] {
            let attributes = IdtEntryAttributes::new(privilege, gate);
            assert_eq!(attributes.gate_type(), gate);
            assert_eq!(attributes.privilege(), privilege);
        }
    }
    assert_eq!(GateType::Interrupt.bits(), 0x0E);
    assert_eq!(GateType::from_code(0x0F), GateType::Trap);
}

#[test]
fn idt_entries_split_the_address_of_the_handler() {
    let entry = IdtEntry::new(
        0xFFFF_8000_1234_5678,
        SegmentSelector::new(1, PrivilegeLevel::Kernel),
        IdtEntryAttributes::default(),
    );
    assert_eq!(entry.offset_low, 0x5678);
    assert_eq!(entry.offset_middle, 0x1234);
    assert_eq!(entry.offset_high, 0xFFFF_8000);
    assert_eq!((entry.ist, entry.reserved), (0, 0));
    assert_eq!(entry.selector, SegmentSelector(8));
    let mut empty = IdtEntry::empty();
    assert_eq!((empty.offset_low, empty.offset_middle, empty.offset_high), (0, 0, 0));
    assert_eq!(empty.attributes, IdtEntryAttributes(0x8E));
    empty.set_func(0x0000_0001_0002_0003);
    assert_eq!((empty.offset_low, empty.offset_middle, empty.offset_high), (3, 2, 1));
    let descriptor = IdtDescriptor::for_table(0x1000);
    assert_eq!((descriptor.size, descriptor.offset), (4095, 0x1000));
    assert_eq!(IdtDescriptor::new(1, 2), IdtDescriptor { size: 1, offset: 2 });
}

#[test]
fn handlers_are_registered_in_the_idt() {
    let mut idt = Idt::new();
    for vector in [0u8, 32, 255] {
        assert_eq!(idt.entry(vector), IdtEntry::empty());
    }
    register_handler(&mut idt, 32, 0xFFFF_FFFF_8000_1000);
    let mut expected = IdtEntry::empty();
    expected.set_func(0xFFFF_FFFF_8000_1000);
    assert_eq!(idt.entry(32), expected);
    assert_eq!(idt.entry(31), IdtEntry::empty());
    assert_eq!(idt.entry(33), IdtEntry::empty());
    idt.set_func(255, 5);
    assert_eq!(idt.entry(255).offset_low, 5);
}

#[test]
fn vectors_are_handed_out_from_32_on() {
    let mut vectors = VectorAllocator::new();
    assert_eq!(vectors.allocate_vector(), 32);
    assert_eq!(vectors.allocate_vector(), 33);
    assert!(!vectors.exhausted());
    for expected in 34u8..0xF0 {
        assert_eq!(vectors.allocate_vector(), expected);
    }
    assert!(vectors.exhausted());
}

#[test]
fn registers_are_reported_in_order() {
    let scratch = ScratchRegisters {
        r11: 11,
        r10: 10,
        r9: 9,
        r8: 8,
        rsi: 6,
        rdi: 7,
        rdx: 3,
        rcx: 2,
        rax: 1,
    };
    let preserved = PreservedRegisters { r15: 15, r14: 14, r13: 13, r12: 12, rbp: 5, rbx: 4 };
    let iret = IretRegisters { rip: 0x100, cs: 8, rflags: 0x202, rsp: 0x200, ss: 0x10 };
    assert_eq!(
        scratch.dump(),
        vec![
            (Register::Rax, 1),
            (Register::Rcx, 2),
            (Register::Rdx, 3),
            (Register::Rdi, 7),
            (Register::Rsi, 6),
            (Register::R8, 8),
            (Register::R9, 9),
            (Register::R10, 10),
            (Register::R11, 11),
        ]
    );
    assert_eq!(
        preserved.dump(),
        vec![
            (Register::Rbx, 4),
            (Register::Rbp, 5),
            (Register::R12, 12),
            (Register::R13, 13),
            (Register::R14, 14),
            (Register::R15, 15),
        ]
    );
    assert_eq!(
        iret.dump(),
        vec![
            (Register::Rip, 0x100),
            (Register::Cs, 8),
            (Register::Rflags, 0x202),
            (Register::Rsp, 0x200),
            (Register::Ss, 0x10),
        ]
    );
    let frame = InterruptStackFrame { scratch, preserved, iret };
    let all = frame.dump();
    assert_eq!(all.len(), 20);
    assert_eq!(all[0], (Register::Rax, 1));
    assert_eq!(all[9], (Register::Rbx, 4));
    assert_eq!(all[19], (Register::Ss, 0x10));
}

#[test]
fn the_kind_of_apic_follows_from_the_features() {
    assert_eq!(ApicType::from_features(true, true), ApicType::X2apic);
    assert_eq!(ApicType::from_features(true, false), ApicType::X2apic);
    assert_eq!(ApicType::from_features(false, true), ApicType::Xapic);
    assert_eq!(ApicType::from_features(false, false), ApicType::Absent);
    let apic = LocalApic::new(VirtAddr::new(0xFFFF_8000_FEE0_0000), ApicType::Xapic);
    assert_eq!(apic.register_to_xapic_addr(0x0B0), VirtAddr::new(0xFFFF_8000_FEE0_00B0));
    assert_eq!(LocalApic::elapsed_ticks(0xFFFF_0000), 0xFFFF);
}

#[test]
fn the_state_of_the_processors() {
    let mut state = ApicState::new();
    assert_eq!(state.get_cpu_count(), 0);
    assert_eq!(state.get_bsp_id(), 0);
    assert!(!state.get_bsp_ready());
    state.cpu_count = 4;
    state.bsp_apic_id = 2;
    state.set_bsp_ready();
    assert_eq!(state.get_cpu_count(), 4);
    assert_eq!(state.get_bsp_id(), 2);
    assert!(state.get_bsp_ready());
}

#[test]
fn interrupts_are_routed_through_the_first_io_apic_that_takes_them() {
    let ioapics = vec![
        IoApicRange { interrupt_base: 24, max_redirect: 0 },
        IoApicRange { interrupt_base: 0, max_redirect: 23 },
    ];
    assert_eq!(ioapic_from_redirect(&ioapics, 30), Some(0));
    // an I/O APIC is taken for an interrupt below its last one too
    assert_eq!(ioapic_from_redirect(&ioapics, 5), Some(0));
    assert_eq!(ioapic_from_redirect(&Vec::new(), 5), None);
    let high = vec![
        IoApicRange { interrupt_base: 24, max_redirect: 0 },
        IoApicRange { interrupt_base: 40, max_redirect: 3 },
        IoApicRange { interrupt_base: 0, max_redirect: 23 },
    ];
    assert_eq!(ioapic_from_redirect(&high[1..].to_vec(), 50), Some(0));
    assert_eq!(ioapic_from_redirect(&vec![IoApicRange { interrupt_base: 40, max_redirect: 0 }], 40), Some(0));
    assert_eq!(ioapic_from_redirect(&vec![IoApicRange { interrupt_base: 41, max_redirect: 0 }], 41), Some(0));
    assert_eq!(
        ioapic_from_redirect(
            &vec![
                IoApicRange { interrupt_base: 0xFFFF_FFFF, max_redirect: 0xFFFF_FFFF },
                IoApicRange { interrupt_base: 7, max_redirect: 0 },
            ],
            0xFFFF_FFFE
        ),
        Some(0)
    );
    assert_eq!(
        ioapic_set_redirect(&ioapics, 0x30, 30, 0, 0),
        Some(RedirectWrite { ioapic: 0, register: 28, low: 0x30, high: 0 })
    );
    // the I/O APIC that is taken starts above the interrupt
    assert_eq!(ioapic_set_redirect(&ioapics, 0x31, 5, 0xA, 1), None);
    assert_eq!(ioapic_set_redirect(&Vec::new(), 0x31, 5, 0, 0), None);
    let low = vec![IoApicRange { interrupt_base: 0, max_redirect: 23 }];
    assert_eq!(
        ioapic_set_redirect(&low, 0x31, 5, 0xA, 1),
        Some(RedirectWrite { ioapic: 0, register: 26, low: 0x31, high: 0 })
    );
    assert_eq!(ioapic_set_redirect(&low, 0x31, 0x7FFF_FFF8, 0, 0), None);
    assert_eq!(
        ioapic_set_redirect(&low, 0x31, 0x7FFF_FFF7, 0, 0),
        Some(RedirectWrite { ioapic: 0, register: 0xFFFF_FFFE, low: 0x31, high: 0 })
    );
    let overrides = vec![
        IrqOverride { irq: 0, system_int: 2, flags: 0 },
        IrqOverride { irq: 9, system_int: 30, flags: 0xD },
        IrqOverride { irq: 9, system_int: 1, flags: 0 },
    ];
    assert_eq!(
        ioapic_setup_irq(&overrides, &low, 9, 0x40, 0),
        Some(RedirectWrite { ioapic: 0, register: 76, low: 0x40, high: 0 })
    );
    assert_eq!(
        ioapic_setup_irq(&overrides, &low, 0, 0x41, 0),
        Some(RedirectWrite { ioapic: 0, register: 20, low: 0x41, high: 0 })
    );
    assert_eq!(
        ioapic_setup_irq(&overrides, &low, 4, 0x42, 0),
        Some(RedirectWrite { ioapic: 0, register: 24, low: 0x42, high: 0 })
    );
    assert_eq!(ioapic_setup_irq(&overrides, &Vec::new(), 4, 0x42, 0), None);
}

#[test]
fn a_kernel_process_starts_from_its_switch_stack() {
    let space = AddressSpace::this(0x7000);
    let (process, start) = ArchProcess::new_kernel(
        VirtAddr::new(0xFFFF_FFFF_8000_0000),
        true,
        VirtAddr::new(0xFFFF_8000_0001_0000),
        VirtAddr::new(0xFFFF_8000_0002_0000),
        space,
        0xFFFF_FFFF_8000_1234,
    );
    assert_eq!(process.context_switch_rsp, VirtAddr::new(0xFFFF_8000_0001_0000));
    assert_eq!(process.context, VirtAddr::new(0xFFFF_8000_0001_0000 - 224));
    assert_eq!(process.addr_space.switch(), 0x7000);
    assert_eq!(start.frame_addr, VirtAddr::new(0xFFFF_8000_0001_0000 - 160));
    assert_eq!(start.context_addr, process.context);
    assert_eq!(
        start.iret,
        IretRegisters {
            rip: 0xFFFF_FFFF_8000_0000,
            cs: 0x08,
            rflags: 0x200,
            rsp: 0xFFFF_8000_0002_0000,
            ss: 0x10,
        }
    );
    assert_eq!(
        start.context,
        Context { cr3: 0x7000, r15: 0, r14: 0, r13: 0, r12: 0, rbx: 0, rbp: 0, rip: 0xFFFF_FFFF_8000_1234 }
    );
    assert_eq!(IretRegisters::for_kernel_entry(1, 2, false).rflags, 0);
}

#[test]
fn a_switch_stack_is_a_block_of_16_kib() {
    let mut map =
        vec![MemoryMapEntry { base: 0x40_0000 - 0xB000, length: 0x20_B000, entry_type: EntryType::Usable }];
    let mut frames = LockedFrameAllocator::new();
    assert_eq!(frames.init(&mut map), Ok(()));
    let hhdm = VirtAddr::new(0xFFFF_8000_0000_0000);
    assert_eq!(
        ArchProcess::alloc_stack(&mut frames, hhdm),
        Some(VirtAddr::new(0xFFFF_8000_0040_0000 + 0x1_0000))
    );
    assert_eq!(
        ArchProcess::alloc_stack(&mut frames, hhdm),
        Some(VirtAddr::new(0xFFFF_8000_0040_4000 + 0x1_0000))
    );
    let mut none = LockedFrameAllocator::new();
    assert_eq!(ArchProcess::alloc_stack(&mut none, hhdm), None);
    // where the top of the stack does not fit, the block goes back
    assert_eq!(ArchProcess::alloc_stack(&mut frames, VirtAddr::new(u64::MAX - 0x1000)), None);
    assert_eq!(
        ArchProcess::alloc_stack(&mut frames, hhdm),
        Some(VirtAddr::new(0xFFFF_8000_0040_8000 + 0x1_0000))
    );
}

#[test]
fn processes_are_numbered_from_zero() {
    let mut ids = ProcessIds::new();
    assert_eq!(ids.allocate(), ProcessId::new(0));
    assert_eq!(ids.allocate(), ProcessId(1));
    let (arch, _) = ArchProcess::new_kernel(
        VirtAddr::new(0x1000),
        false,
        VirtAddr::new(0x9000),
        VirtAddr::new(0xA000),
        AddressSpace::this(0x3000),
        0x2000,
    );
    let process = Process::new_kernel(&mut ids, arch);
    assert_eq!(process.arch_process().context, VirtAddr::new(0x9000 - 224));
    let (idle, _) = ArchProcess::new_kernel(
        VirtAddr::new(0x1000),
        true,
        VirtAddr::new(0x9000),
        VirtAddr::new(0xA000),
        AddressSpace::this(0x3000),
        0x2000,
    );
    let _ = Process::new_idle(&mut ids, idle);
    assert_eq!(ids.allocate(), ProcessId(4));
}
