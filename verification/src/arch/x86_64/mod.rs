//! Architecture specific code for ``x86_64``.

use vstd::prelude::*;

pub mod gdt;
pub mod interrupts;
pub mod paging;
pub mod process;

verus! {

/// Represents the privilege level of the CPU.
#[derive(Debug, Copy, Clone, PartialEq, Eq, Structural)]
pub enum PrivilegeLevel {
    /// Ring 0 or kernel privilege level.
    Kernel,
    /// Ring 3 or user privilege level.
    User,
}

impl PrivilegeLevel {
    /// The number of the ring: 0 for the kernel, 3 for the user.
    pub open spec fn ring(self) -> u8 {
        match self {
            PrivilegeLevel::Kernel => 0,
            PrivilegeLevel::User => 3,
        }
    }

    /// The number of the ring: 0 for the kernel, 3 for the user.
    pub fn bits(self) -> (r: u8)
        ensures
            r == self.ring(),
    {
        match self {
            PrivilegeLevel::Kernel => 0,
            PrivilegeLevel::User => 3,
        }
    }

    /// The privilege level of ring `value`, which is 0 or 3.
    pub fn from_ring(value: u8) -> (r: Self)
        requires
            value == 0 || value == 3,
        ensures
            r.ring() == value,
    {
        if value == 0 {
            PrivilegeLevel::Kernel
        } else {
            PrivilegeLevel::User
        }
    }
}

} // verus!
