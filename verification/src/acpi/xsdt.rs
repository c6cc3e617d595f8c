//! The extended root table of ACPI.

use vstd::prelude::*;

use super::rsdt::{entry_pointer, rsdt_readable, Rsdt, RsdtAddr, RsdtEntry};
use super::SdtSignature;
use crate::memory::addr::VirtAddr;

verus! {

/// The root table of a system with ACPI of the second revision: the extended
/// root table if there is one, else the root table.
#[derive(Debug)]
pub struct Xsdt {
    root: Rsdt,
}

impl Xsdt {
    /// The tables that the root table names.
    pub closed spec fn view(&self) -> Seq<RsdtEntry> {
        self.root@
    }

    /// The width of the entries in bits.
    pub closed spec fn width(&self) -> int {
        self.root.width()
    }

    /// The root table from its bytes, as an extended root table if they are
    /// one, else as a root table.
    pub fn new(table: &Vec<u8>, names: &Vec<SdtSignature>, hhdm_offset: VirtAddr) -> (r: Option<Self>)
        ensures
            r is Some <==> rsdt_readable(
                RsdtAddr::Xsdt(hhdm_offset),
                table@,
                names@.len() as int,
                hhdm_offset.0,
            ) || rsdt_readable(
                RsdtAddr::Rsdt(hhdm_offset),
                table@,
                names@.len() as int,
                hhdm_offset.0,
            ),
            match r {
                Some(xsdt) => {
                    &&& xsdt.width() == (if rsdt_readable(
                        RsdtAddr::Xsdt(hhdm_offset),
                        table@,
                        names@.len() as int,
                        hhdm_offset.0,
                    ) {
                        64int
                    } else {
                        32int
                    })
                    &&& xsdt@.len() == names@.len()
                    &&& forall|i: int|
                        0 <= i < xsdt@.len() ==> (#[trigger] xsdt@[i]).signature@ == names@[i]@
                            && xsdt@[i].addr.0 == entry_pointer(table@, xsdt.width(), i)
                            + hhdm_offset.0
                },
                None => true,
            },
    {
        if let Some(root) = Rsdt::new(RsdtAddr::Xsdt(hhdm_offset), table, names, hhdm_offset) {
            return Some(Self { root });
        }
        if let Some(root) = Rsdt::new(RsdtAddr::Rsdt(hhdm_offset), table, names, hhdm_offset) {
            return Some(Self { root });
        }
        None
    }
}

} // verus!
