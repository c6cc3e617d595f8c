//! What the architecture keeps of a process: where its saved registers lie
//! and which address space it runs in.

use vstd::prelude::*;

use super::interrupts::handler::IretRegisters;
use super::paging::address_space::AddressSpace;
use crate::memory::addr::{PhysAddr, VirtAddr};
use crate::memory::frame::{block_bytes, LockedFrameAllocator};
use crate::memory::ownership::{exclusive, lemma_live_block_is_returnable};

verus! {

/// The size of the stack on which processes are switched.
pub const SWITCH_STACK_SIZE: u64 = 0x4000;

/// The size of the stack of a process.
pub const STACK_SIZE: u64 = 0x1_0000;

/// The number of bytes of the registers that an interrupt handler finds on
/// the stack.
pub const INTERRUPT_FRAME_SIZE: u64 = 160;

/// The number of bytes of the saved context of a process.
pub const CONTEXT_SIZE: u64 = 64;

/// The registers that are saved when a process is switched away from.
#[derive(Debug, Clone, Copy, PartialEq, Eq, Structural)]
pub struct Context {
    /// The table of level 4 of the address space.
    pub cr3: u64,
    /// The register `r15`.
    pub r15: u64,
    /// The register `r14`.
    pub r14: u64,
    /// The register `r13`.
    pub r13: u64,
    /// The register `r12`.
    pub r12: u64,
    /// The register `rbx`.
    pub rbx: u64,
    /// The register `rbp`.
    pub rbp: u64,
    /// Where the process goes on.
    pub rip: u64,
}

/// What the architecture keeps of a process.
#[derive(Debug)]
pub struct ArchProcess {
    /// Where the saved context lies.
    pub context: VirtAddr,
    /// The address space of the process.
    pub addr_space: AddressSpace,
    /// The top of the stack on which the process is switched.
    pub context_switch_rsp: VirtAddr,
}

/// What is to be written to the switch stack of a new kernel process.
#[derive(Debug, Clone, Copy, PartialEq, Eq, Structural)]
pub struct KernelStart {
    /// Where the registers for the return from the interrupt are written.
    pub frame_addr: VirtAddr,
    /// The registers for the return from the interrupt.
    pub iret: IretRegisters,
    /// Where the context is written.
    pub context_addr: VirtAddr,
    /// The context.
    pub context: Context,
}

impl ArchProcess {
    /// A kernel process that starts at `entry_point`. Its switch stack ends
    /// at `switch_stack`, its own stack at `process_stack`; `trampoline` is
    /// where a new process is resumed. Returns the process and what is to be
    /// written to its switch stack: the registers for the return from the
    /// interrupt lie at the top, the context below them.
    pub fn new_kernel(
        entry_point: VirtAddr,
        enable_int: bool,
        switch_stack: VirtAddr,
        process_stack: VirtAddr,
        addr_space: AddressSpace,
        trampoline: u64,
    ) -> (r: (Self, KernelStart))
        requires
            switch_stack.0 >= INTERRUPT_FRAME_SIZE + CONTEXT_SIZE,
        ensures
            r.0.context.0 == switch_stack.0 - 224,
            r.0.context_switch_rsp == switch_stack,
            r.0.addr_space.root() == addr_space.root(),
            r.1.frame_addr.0 == switch_stack.0 - 160,
            r.1.context_addr.0 == switch_stack.0 - 224,
            r.1.iret == (IretRegisters {
                rip: entry_point.0,
                cs: 0x08,
                rflags: if enable_int {
                    0x200
                } else {
                    0
                },
                rsp: process_stack.0,
                ss: 0x10,
            }),
            r.1.context == (Context {
                cr3: addr_space.root() as u64,
                r15: 0,
                r14: 0,
                r13: 0,
                r12: 0,
                rbx: 0,
                rbp: 0,
                rip: trampoline,
            }),
    {
        let mut stack_ptr = switch_stack.0;
        stack_ptr -= INTERRUPT_FRAME_SIZE;
        let frame_addr = VirtAddr::new(stack_ptr);
        let iret = IretRegisters::for_kernel_entry(entry_point.0, process_stack.0, enable_int);
        stack_ptr -= CONTEXT_SIZE;
        let context_addr = VirtAddr::new(stack_ptr);
        let context = Context {
            cr3: addr_space.switch(),
            r15: 0,
            r14: 0,
            r13: 0,
            r12: 0,
            rbx: 0,
            rbp: 0,
            rip: trampoline,
        };
        (
            Self { context: context_addr, addr_space, context_switch_rsp: switch_stack },
            KernelStart { frame_addr, iret, context_addr, context },
        )
    }

    /// Allocates the switch stack of a process: a block of
    /// [`SWITCH_STACK_SIZE`] bytes. Returns the top of the stack in the
    /// direct map, [`STACK_SIZE`] bytes above the start of the block, or
    /// `None` if no block is free or the address does not fit; the free
    /// memory is then as it was.
    pub fn alloc_stack(frames: &mut LockedFrameAllocator, hhdm_offset: VirtAddr) -> (r: Option<
        VirtAddr,
    >)
        requires
            old(frames)@.wf(),
        ensures
            final(frames)@.wf(),
            final(frames)@.same_range(&old(frames)@),
            match r {
                Some(top) => exists|block: int|
                    {
                        &&& top.0 == block + hhdm_offset.0 + STACK_SIZE
                        &&& #[trigger] old(frames)@.valid_block(2, block)
                        &&& block_bytes(2, block).subset_of(old(frames)@.free_bytes())
                        &&& final(frames)@.free_bytes() == old(frames)@.free_bytes().difference(
                            block_bytes(2, block),
                        )
                    },
                None => final(frames)@.free_bytes() == old(frames)@.free_bytes(),
            },
            (exists|o: int, a: int| 2 <= o && old(frames)@.is_free(o, a)) && old(
                frames,
            )@.end_addr() + hhdm_offset.0 + STACK_SIZE <= u64::MAX ==> r is Some,
    {
        let frame = match frames.alloc_bytes(SWITCH_STACK_SIZE) {
            Some(frame) => frame,
            None => {
                return None;
            },
        };
        assert(old(frames)@.valid_block(2, frame.0 as int));
        if frame.0 > u64::MAX - STACK_SIZE || hhdm_offset.0 > u64::MAX - STACK_SIZE - frame.0 {
            proof {
                let live = set![(2int, frame.0 as int)];
                assert(exclusive(frames@.free_bytes(), live));
                lemma_live_block_is_returnable(&frames@, live, 2, frame.0 as int);
            }
            frames.dealloc(frame, SWITCH_STACK_SIZE);
            proof {
                assert(frames@.free_bytes() =~= old(frames)@.free_bytes());
            }
            return None;
        }
        Some(frame.as_hddm_virt(hhdm_offset).offset(STACK_SIZE))
    }
}

} // verus!
