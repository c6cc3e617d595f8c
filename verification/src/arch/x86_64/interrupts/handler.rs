//! The registers that an interrupt handler finds on the stack.

use vstd::prelude::*;

verus! {

/// A register of the processor.
#[derive(Debug, Clone, Copy, PartialEq, Eq, Structural)]
pub enum Register {
    /// The register `rax`.
    Rax,
    /// The register `rbx`.
    Rbx,
    /// The register `rcx`.
    Rcx,
    /// The register `rdx`.
    Rdx,
    /// The register `rdi`.
    Rdi,
    /// The register `rsi`.
    Rsi,
    /// The register `rbp`.
    Rbp,
    /// The register `r8`.
    R8,
    /// The register `r9`.
    R9,
    /// The register `r10`.
    R10,
    /// The register `r11`.
    R11,
    /// The register `r12`.
    R12,
    /// The register `r13`.
    R13,
    /// The register `r14`.
    R14,
    /// The register `r15`.
    R15,
    /// The instruction pointer.
    Rip,
    /// The code segment.
    Cs,
    /// The flags.
    Rflags,
    /// The stack pointer.
    Rsp,
    /// The stack segment.
    Ss,
}

/// The registers that the called function may overwrite.
#[derive(Debug, Clone, Copy, PartialEq, Eq, Structural)]
pub struct ScratchRegisters {
    /// The register `r11`.
    pub r11: u64,
    /// The register `r10`.
    pub r10: u64,
    /// The register `r9`.
    pub r9: u64,
    /// The register `r8`.
    pub r8: u64,
    /// The register `rsi`.
    pub rsi: u64,
    /// The register `rdi`.
    pub rdi: u64,
    /// The register `rdx`.
    pub rdx: u64,
    /// The register `rcx`.
    pub rcx: u64,
    /// The register `rax`.
    pub rax: u64,
}

impl ScratchRegisters {
    /// The registers and their values, in the order in which they are
    /// reported.
    pub open spec fn listing(self) -> Seq<(Register, u64)> {
        seq![
            (Register::Rax, self.rax),
            (Register::Rcx, self.rcx),
            (Register::Rdx, self.rdx),
            (Register::Rdi, self.rdi),
            (Register::Rsi, self.rsi),
            (Register::R8, self.r8),
            (Register::R9, self.r9),
            (Register::R10, self.r10),
            (Register::R11, self.r11),
        ]
    }

    /// The registers and their values, in the order in which they are
    /// reported.
    pub fn dump(&self) -> (r: Vec<(Register, u64)>)
        ensures
            r@ == self.listing(),
    {
        let r = vec![
            (Register::Rax, self.rax),
            (Register::Rcx, self.rcx),
            (Register::Rdx, self.rdx),
            (Register::Rdi, self.rdi),
            (Register::Rsi, self.rsi),
            (Register::R8, self.r8),
            (Register::R9, self.r9),
            (Register::R10, self.r10),
            (Register::R11, self.r11),
        ];
        assert(r@ =~= self.listing());
        r
    }
}

/// The registers that the called function must preserve.
#[derive(Debug, Clone, Copy, PartialEq, Eq, Structural)]
pub struct PreservedRegisters {
    /// The register `r15`.
    pub r15: u64,
    /// The register `r14`.
    pub r14: u64,
    /// The register `r13`.
    pub r13: u64,
    /// The register `r12`.
    pub r12: u64,
    /// The register `rbp`.
    pub rbp: u64,
    /// The register `rbx`.
    pub rbx: u64,
}

impl PreservedRegisters {
    /// The registers and their values, in the order in which they are
    /// reported.
    pub open spec fn listing(self) -> Seq<(Register, u64)> {
        seq![
            (Register::Rbx, self.rbx),
            (Register::Rbp, self.rbp),
            (Register::R12, self.r12),
            (Register::R13, self.r13),
            (Register::R14, self.r14),
            (Register::R15, self.r15),
        ]
    }

    /// The registers and their values, in the order in which they are
    /// reported.
    pub fn dump(&self) -> (r: Vec<(Register, u64)>)
        ensures
            r@ == self.listing(),
    {
        let r = vec![
            (Register::Rbx, self.rbx),
            (Register::Rbp, self.rbp),
            (Register::R12, self.r12),
            (Register::R13, self.r13),
            (Register::R14, self.r14),
            (Register::R15, self.r15),
        ];
        assert(r@ =~= self.listing());
        r
    }
}

/// The registers that the processor pushes when it takes an interrupt.
#[derive(Debug, Clone, Copy, PartialEq, Eq, Structural)]
pub struct IretRegisters {
    /// The instruction pointer.
    pub rip: u64,
    /// The code segment.
    pub cs: u64,
    /// The flags.
    pub rflags: u64,
    /// The stack pointer.
    pub rsp: u64,
    /// The stack segment.
    pub ss: u64,
}

impl IretRegisters {
    /// The registers and their values, in the order in which they are
    /// reported.
    pub open spec fn listing(self) -> Seq<(Register, u64)> {
        seq![
            (Register::Rip, self.rip),
            (Register::Cs, self.cs),
            (Register::Rflags, self.rflags),
            (Register::Rsp, self.rsp),
            (Register::Ss, self.ss),
        ]
    }

    /// The registers and their values, in the order in which they are
    /// reported.
    pub fn dump(&self) -> (r: Vec<(Register, u64)>)
        ensures
            r@ == self.listing(),
    {
        let r = vec![
            (Register::Rip, self.rip),
            (Register::Cs, self.cs),
            (Register::Rflags, self.rflags),
            (Register::Rsp, self.rsp),
            (Register::Ss, self.ss),
        ];
        assert(r@ =~= self.listing());
        r
    }

    /// The registers with which a kernel process starts at `entry_point` on
    /// the stack that ends at `stack_top`: the selectors of the kernel's code
    /// and data, and interrupts enabled or not.
    pub fn for_kernel_entry(entry_point: u64, stack_top: u64, enable_int: bool) -> (r: Self)
        ensures
            r == (IretRegisters {
                rip: entry_point,
                cs: 0x08,
                rflags: if enable_int {
                    0x200
                } else {
                    0
                },
                rsp: stack_top,
                ss: 0x10,
            }),
    {
        IretRegisters {
            rip: entry_point,
            cs: 0x08,
            rflags: if enable_int {
                0x200
            } else {
                0x00
            },
            rsp: stack_top,
            ss: 0x10,
        }
    }
}

/// Represents the stack frame pushed by the CPU during an interrupt.
///
/// This contains the state of all registers at the time of the interrupt, so
/// that we can preserve them and restore them when the interrupt handler is
/// done.
#[derive(Debug, Clone, Copy, PartialEq, Eq, Structural)]
pub struct InterruptStackFrame {
    /// The registers that the handler may overwrite.
    pub scratch: ScratchRegisters,
    /// The registers that the handler must preserve.
    pub preserved: PreservedRegisters,
    /// The registers that the processor pushed.
    pub iret: IretRegisters,
}

impl InterruptStackFrame {
    /// The registers and their values: the scratch registers, then the
    /// preserved ones, then those that the processor pushed.
    pub fn dump(&self) -> (r: Vec<(Register, u64)>)
        ensures
            r@ == self.scratch.listing() + self.preserved.listing() + self.iret.listing(),
    {
        let mut r = self.scratch.dump();
        let mut preserved = self.preserved.dump();
        let mut iret = self.iret.dump();
        r.append(&mut preserved);
        r.append(&mut iret);
        r
    }
}

} // verus!
