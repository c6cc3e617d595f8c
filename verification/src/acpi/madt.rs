//! The table of the interrupt controllers.

use vstd::prelude::*;

use super::{SdtHeader, SdtSignature};
use crate::bytes::{le_u16, le_u32, le_u64, read_u16_at, read_u32_at, read_u64_at};
use crate::memory::addr::{PhysAddr, VirtAddr};

verus! {

/// The number of bytes before the first entry of the table.
pub const MADT_HEADER_SIZE: usize = 0x2C;

/// The letters `APIC`.
pub open spec fn madt_signature() -> Seq<u8> {
    seq![0x41u8, 0x50, 0x49, 0x43]
}

/// The first two bytes of every entry.
#[derive(Debug, Clone, Copy, PartialEq, Eq, Structural)]
pub struct EntryHeader {
    /// The kind of the entry.
    pub entry_type: u8,
    /// The length of the entry in bytes.
    pub length: u8,
}

/// A local APIC of a processor.
#[derive(Debug, Clone, Copy, PartialEq, Eq, Structural)]
pub struct Lapic {
    /// The first two bytes.
    pub header: EntryHeader,
    /// The id of the processor.
    pub processor_id: u8,
    /// The id of its APIC.
    pub apic_id: u8,
    /// Whether the processor can be used.
    pub flags: u32,
}

/// An I/O APIC.
#[derive(Debug, Clone, Copy, PartialEq, Eq, Structural)]
pub struct IoApic {
    /// The first two bytes.
    pub header: EntryHeader,
    /// The id of the I/O APIC.
    pub ioapic_id: u8,
    /// Not used.
    pub reserved: u8,
    /// The physical address of its registers.
    pub ioapic_addr: u32,
    /// The first interrupt that it takes.
    pub interrupt_base: u32,
}

impl IoApic {
    /// Where the registers are mapped: at their physical address plus the
    /// offset of the direct map.
    pub fn addr(&self, hhdm_offset: VirtAddr) -> (r: VirtAddr)
        requires
            self.ioapic_addr + hhdm_offset.0 <= u64::MAX,
        ensures
            r.0 == self.ioapic_addr + hhdm_offset.0,
    {
        PhysAddr::new(self.ioapic_addr as u64).as_hddm_virt(hhdm_offset)
    }

    /// The first interrupt that the I/O APIC takes.
    pub fn interrupt_base(&self) -> (r: u32)
        ensures
            r == self.interrupt_base,
    {
        self.interrupt_base
    }
}

/// An interrupt of the legacy controller that is wired to another global
/// interrupt.
#[derive(Debug, Clone, Copy, PartialEq, Eq, Structural)]
pub struct IntSrcOverride {
    /// The first two bytes.
    pub header: EntryHeader,
    /// The bus.
    pub bus: u8,
    /// The interrupt of the legacy controller.
    pub irq: u8,
    /// The global interrupt.
    pub system_int: u32,
    /// Polarity and trigger mode.
    pub flags: u16,
}

impl IntSrcOverride {
    /// The interrupt of the legacy controller.
    pub fn irq(&self) -> (r: u8)
        ensures
            r == self.irq,
    {
        self.irq
    }

    /// The global interrupt.
    pub fn system_int(&self) -> (r: u32)
        ensures
            r == self.system_int,
    {
        self.system_int
    }

    /// Polarity and trigger mode.
    pub fn flags(&self) -> (r: u16)
        ensures
            r == self.flags,
    {
        self.flags
    }
}

/// A non-maskable interrupt of an I/O APIC.
#[derive(Debug, Clone, Copy, PartialEq, Eq, Structural)]
pub struct IoApicNmi {
    /// The first two bytes.
    pub header: EntryHeader,
    /// The source.
    pub nmi: u8,
    /// Not used.
    pub reserved: u8,
    /// Polarity and trigger mode.
    pub flags: u16,
    /// The global interrupt.
    pub system_int: u32,
}

/// A non-maskable interrupt of a local APIC.
#[derive(Debug, Clone, Copy, PartialEq, Eq, Structural)]
pub struct LapicNmi {
    /// The first two bytes.
    pub header: EntryHeader,
    /// The id of the processor.
    pub processor_id: u8,
    /// Polarity and trigger mode.
    pub flags: u16,
    /// The pin of the local APIC.
    pub lint: u8,
}

/// The address of the local APICs, 64 bits wide.
#[derive(Debug, Clone, Copy, PartialEq, Eq, Structural)]
pub struct LapicAddrOverride {
    /// The first two bytes.
    pub header: EntryHeader,
    /// Not used.
    pub reserved: u16,
    /// The physical address.
    pub addr: u64,
}

/// An entry of the table.
#[derive(Debug, Clone, Copy, PartialEq, Eq, Structural)]
pub enum MadtEntry {
    /// A local APIC.
    Lapic(Lapic),
    /// An I/O APIC.
    IoApic(IoApic),
    /// An override of an interrupt source.
    IntSrcOverride(IntSrcOverride),
    /// A non-maskable interrupt of an I/O APIC.
    IoApicNmi(IoApicNmi),
    /// A non-maskable interrupt of a local APIC.
    LapicNmi(LapicNmi),
    /// The address of the local APICs.
    LapicAddrOverride(LapicAddrOverride),
}

/// The number of bytes that an entry of the kind holds at least, for the
/// kinds 0 to 5.
pub open spec fn entry_size(entry_type: u8) -> int {
    if entry_type == 0 {
        8
    } else if entry_type == 1 {
        12
    } else if entry_type == 2 {
        10
    } else if entry_type == 3 {
        10
    } else if entry_type == 4 {
        6
    } else {
        12
    }
}

/// The entry of a kind from 0 to 5 that the bytes from `at` on hold.
pub open spec fn decode_entry(table: Seq<u8>, at: int) -> MadtEntry {
    let header = EntryHeader { entry_type: table[at], length: table[at + 1] };
    if table[at] == 0 {
        MadtEntry::Lapic(
            Lapic {
                header,
                processor_id: table[at + 2],
                apic_id: table[at + 3],
                flags: le_u32(table, at + 4) as u32,
            },
        )
    } else if table[at] == 1 {
        MadtEntry::IoApic(
            IoApic {
                header,
                ioapic_id: table[at + 2],
                reserved: table[at + 3],
                ioapic_addr: le_u32(table, at + 4) as u32,
                interrupt_base: le_u32(table, at + 8) as u32,
            },
        )
    } else if table[at] == 2 {
        MadtEntry::IntSrcOverride(
            IntSrcOverride {
                header,
                bus: table[at + 2],
                irq: table[at + 3],
                system_int: le_u32(table, at + 4) as u32,
                flags: le_u16(table, at + 8) as u16,
            },
        )
    } else if table[at] == 3 {
        MadtEntry::IoApicNmi(
            IoApicNmi {
                header,
                nmi: table[at + 2],
                reserved: table[at + 3],
                flags: le_u16(table, at + 4) as u16,
                system_int: le_u32(table, at + 6) as u32,
            },
        )
    } else if table[at] == 4 {
        MadtEntry::LapicNmi(
            LapicNmi {
                header,
                processor_id: table[at + 2],
                flags: le_u16(table, at + 3) as u16,
                lint: table[at + 5],
            },
        )
    } else {
        MadtEntry::LapicAddrOverride(
            LapicAddrOverride {
                header,
                reserved: le_u16(table, at + 2) as u16,
                addr: le_u64(table, at + 4) as u64,
            },
        )
    }
}

/// What comes next in the table from `current` on, and where the walk goes
/// on after it: entries of the kinds 0 to 5 are given, entries of the kinds
/// from 16 on are passed over, and the walk ends at the end of the table, at
/// an entry of another kind, at an entry without length, and at an entry
/// that the table does not hold whole.
pub open spec fn next_entry(table: Seq<u8>, current: int, limit: int) -> (Option<MadtEntry>, int)
    decreases limit - current,
{
    if current < 0 || current + 2 > limit || limit > table.len() {
        (None, current)
    } else {
        let entry_type = table[current];
        let length = table[current + 1] as int;
        if length == 0 || current + length > limit {
            (None, current)
        } else if entry_type <= 5 {
            if length < entry_size(entry_type) {
                (None, current)
            } else {
                (Some(decode_entry(table, current)), current + length)
            }
        } else if entry_type >= 0x10 {
            next_entry(table, current + length, limit)
        } else {
            (None, current + length)
        }
    }
}

/// The table of the interrupt controllers.
#[derive(Debug)]
pub struct Madt {
    header: SdtHeader,
    lapic_addr: u32,
    flags: u32,
    table: Vec<u8>,
}

impl Madt {
    /// The bytes of the table.
    pub closed spec fn view(&self) -> Seq<u8> {
        self.table@
    }

    /// The physical address of the local APICs.
    pub closed spec fn lapic(&self) -> u32 {
        self.lapic_addr
    }

    /// The table holds its header and as many bytes as the header says.
    pub closed spec fn wf(&self) -> bool {
        &&& self.header.decodes(self.table@)
        &&& 44 <= self.header.length <= self.table@.len()
        &&& self.header.length == le_u32(self.table@, 4)
    }

    /// The table from its bytes, if they are sound, have the signature
    /// `APIC` and hold the 44 bytes before the entries.
    pub fn new(table: Vec<u8>) -> (r: Option<Self>)
        ensures
            match r {
                Some(madt) => {
                    &&& madt.wf()
                    &&& madt@ == table@
                    &&& SdtHeader::sound(table@)
                    &&& table@.subrange(0, 4) == madt_signature()
                    &&& madt.lapic() == le_u32(table@, 36)
                },
                None => !(SdtHeader::sound(table@) && table@.subrange(0, 4) == madt_signature()
                    && le_u32(table@, 4) >= 44),
            },
    {
        let signature = SdtSignature([0x41, 0x50, 0x49, 0x43]);
        assert(signature@ =~= madt_signature());
        let header = match SdtHeader::parse(&table, signature) {
            Some(header) => header,
            None => {
                return None;
            },
        };
        if header.length < 44 {
            return None;
        }
        let lapic_addr = read_u32_at(&table, 36);
        let flags = read_u32_at(&table, 40);
        Some(Self { header, lapic_addr, flags, table })
    }

    /// A walk over the entries of the table.
    pub fn iter(&self) -> (r: MadtIter<'_>)
        requires
            self.wf(),
        ensures
            r.wf(),
            r.table() == self@,
            r.position() == 44,
            r.limit() == le_u32(self@, 4),
    {
        MadtIter { table: &self.table, current: MADT_HEADER_SIZE, limit: self.header.length as usize }
    }

    /// Where the registers of the local APICs are mapped: at their physical
    /// address plus the offset of the direct map.
    pub fn local_apic_addr(&self, hhdm_offset: VirtAddr) -> (r: VirtAddr)
        requires
            self.lapic() + hhdm_offset.0 <= u64::MAX,
        ensures
            r.0 == self.lapic() + hhdm_offset.0,
    {
        PhysAddr::new(self.lapic_addr as u64).as_hddm_virt(hhdm_offset)
    }
}

/// A walk over the entries of the table of the interrupt controllers.
#[derive(Debug)]
pub struct MadtIter<'a> {
    table: &'a Vec<u8>,
    current: usize,
    limit: usize,
}

impl<'a> MadtIter<'a> {
    /// The bytes of the table.
    pub closed spec fn table(&self) -> Seq<u8> {
        self.table@
    }

    /// Where the walk stands.
    pub closed spec fn position(&self) -> int {
        self.current as int
    }

    /// Where the table ends.
    pub closed spec fn limit(&self) -> int {
        self.limit as int
    }

    /// The end of the table lies in its bytes.
    pub closed spec fn wf(&self) -> bool {
        self.limit <= self.table@.len()
    }

    /// The next entry of the table, if the walk has not ended.
    pub fn next(&mut self) -> (r: Option<MadtEntry>)
        requires
            old(self).wf(),
        ensures
            final(self).wf(),
            final(self).table() == old(self).table(),
            final(self).limit() == old(self).limit(),
            (r, final(self).position()) == next_entry(
                old(self).table(),
                old(self).position(),
                old(self).limit(),
            ),
    {
        while self.current < self.limit
            invariant
                self.wf(),
                self.table == old(self).table,
                self.limit == old(self).limit,
                next_entry(self.table@, self.current as int, self.limit as int) == next_entry(
                    old(self).table@,
                    old(self).current as int,
                    old(self).limit as int,
                ),
            decreases self.limit - self.current,
        {
            if self.limit - self.current < 2 {
                return None;
            }
            let at = self.current;
            let entry_type = self.table[at];
            let length = self.table[at + 1] as usize;
            if length == 0 || length > self.limit - at {
                return None;
            }
            let header = EntryHeader { entry_type, length: self.table[at + 1] };
            if entry_type == 0 {
                if length < 8 {
                    return None;
                }
                self.current = at + length;
                return Some(
                    MadtEntry::Lapic(
                        Lapic {
                            header,
                            processor_id: self.table[at + 2],
                            apic_id: self.table[at + 3],
                            flags: read_u32_at(self.table, at + 4),
                        },
                    ),
                );
            } else if entry_type == 1 {
                if length < 12 {
                    return None;
                }
                self.current = at + length;
                return Some(
                    MadtEntry::IoApic(
                        IoApic {
                            header,
                            ioapic_id: self.table[at + 2],
                            reserved: self.table[at + 3],
                            ioapic_addr: read_u32_at(self.table, at + 4),
                            interrupt_base: read_u32_at(self.table, at + 8),
                        },
                    ),
                );
            } else if entry_type == 2 {
                if length < 10 {
                    return None;
                }
                self.current = at + length;
                return Some(
                    MadtEntry::IntSrcOverride(
                        IntSrcOverride {
                            header,
                            bus: self.table[at + 2],
                            irq: self.table[at + 3],
                            system_int: read_u32_at(self.table, at + 4),
                            flags: read_u16_at(self.table, at + 8),
                        },
                    ),
                );
            } else if entry_type == 3 {
                if length < 10 {
                    return None;
                }
                self.current = at + length;
                return Some(
                    MadtEntry::IoApicNmi(
                        IoApicNmi {
                            header,
                            nmi: self.table[at + 2],
                            reserved: self.table[at + 3],
                            flags: read_u16_at(self.table, at + 4),
                            system_int: read_u32_at(self.table, at + 6),
                        },
                    ),
                );
            } else if entry_type == 4 {
                if length < 6 {
                    return None;
                }
                self.current = at + length;
                return Some(
                    MadtEntry::LapicNmi(
                        LapicNmi {
                            header,
                            processor_id: self.table[at + 2],
                            flags: read_u16_at(self.table, at + 3),
                            lint: self.table[at + 5],
                        },
                    ),
                );
            } else if entry_type == 5 {
                if length < 12 {
                    return None;
                }
                self.current = at + length;
                return Some(
                    MadtEntry::LapicAddrOverride(
                        LapicAddrOverride {
                            header,
                            reserved: read_u16_at(self.table, at + 2),
                            addr: read_u64_at(self.table, at + 4),
                        },
                    ),
                );
            } else if entry_type >= 0x10 {
                self.current = at + length;
            } else {
                self.current = at + length;
                return None;
            }
        }
        None
    }
}

} // verus!
