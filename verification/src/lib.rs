//! Early-boot memory management for a 64-bit kernel: typed physical and
//! virtual addresses, a bootstrap allocator, a buddy frame allocator and a
//! four-level page-table mutator, each with a machine-checked contract.

pub mod acpi;
pub mod arch;
pub mod bytes;
pub mod drivers;
pub mod logger;
pub mod memory;
pub mod process;
pub mod psf;
