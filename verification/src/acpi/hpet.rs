//! The high precision event timer.

use vstd::prelude::*;

use super::SdtHeader;
use crate::bytes::{le_u16, le_u64, read_u16_at, read_u64_at};
use crate::memory::addr::{PhysAddr, VirtAddr};

verus! {

/// The number of bytes of the table of the timer.
pub const HPET_TABLE_SIZE: usize = 56;

/// The largest period of the counter, in femtoseconds, that is accepted.
pub const HPET_MAX_PERIOD: u64 = 0x05F5_E100;

/// Where the registers of the timer lie.
#[derive(Debug, Clone, Copy, PartialEq, Eq, Structural)]
pub struct HpetAddr {
    /// The address space: 0 for memory.
    pub addr_space_width: u8,
    /// The width of a register in bits.
    pub register_bit_width: u8,
    /// The offset of a register in bits.
    pub register_bit_offset: u8,
    /// Not used.
    pub reserved: u8,
    /// The physical address.
    pub address: u64,
}

/// The table that describes the timer.
#[derive(Debug, Clone, Copy)]
pub struct HpetTable {
    /// The header of the table.
    pub header: SdtHeader,
    /// The revision of the hardware.
    pub hardware_rev_id: u8,
    /// The number of comparators and more.
    pub comparator_desc: u8,
    /// The vendor of the hardware.
    pub pci_vendor_id: u16,
    /// Where the registers lie.
    pub address: HpetAddr,
    /// The number of the timer.
    pub hpet_number: u8,
    /// The smallest tick that periodic mode can take.
    pub minimum_tick: u16,
    /// Attributes of the maker.
    pub oem_attributes: u8,
}

impl HpetTable {
    /// The table that the first 56 bytes hold; `None` if there are fewer.
    pub fn new(table: &Vec<u8>) -> (r: Option<Self>)
        ensures
            match r {
                Some(hpet) => {
                    &&& table@.len() >= 56
                    &&& hpet.header.decodes(table@)
                    &&& hpet.hardware_rev_id == table@[36]
                    &&& hpet.comparator_desc == table@[37]
                    &&& hpet.pci_vendor_id == le_u16(table@, 38)
                    &&& hpet.address == (HpetAddr {
                        addr_space_width: table@[40],
                        register_bit_width: table@[41],
                        register_bit_offset: table@[42],
                        reserved: table@[43],
                        address: le_u64(table@, 44) as u64,
                    })
                    &&& hpet.hpet_number == table@[52]
                    &&& hpet.minimum_tick == le_u16(table@, 53)
                    &&& hpet.oem_attributes == table@[55]
                },
                None => table@.len() < 56,
            },
    {
        if table.len() < HPET_TABLE_SIZE {
            return None;
        }
        Some(
            HpetTable {
                header: SdtHeader::read(table),
                hardware_rev_id: table[36],
                comparator_desc: table[37],
                pci_vendor_id: read_u16_at(table, 38),
                address: HpetAddr {
                    addr_space_width: table[40],
                    register_bit_width: table[41],
                    register_bit_offset: table[42],
                    reserved: table[43],
                    address: read_u64_at(table, 44),
                },
                hpet_number: table[52],
                minimum_tick: read_u16_at(table, 53),
                oem_attributes: table[55],
            },
        )
    }
}

/// The timer: where its registers are mapped, and the period of its counter
/// in femtoseconds.
#[derive(Debug, Clone, Copy, PartialEq, Eq, Structural)]
pub struct Hpet {
    /// Where the registers are mapped.
    pub base: VirtAddr,
    /// The period of the counter in femtoseconds.
    pub freq: u64,
}

impl Hpet {
    /// The timer that the table describes. `capabilities` is what the
    /// register of the capabilities of the timer holds: its upper half is the
    /// period of the counter. `None` if the registers are not in memory, the
    /// period is above [`HPET_MAX_PERIOD`], or the address does not fit.
    pub fn init(table: &HpetTable, capabilities: u64, hhdm_offset: VirtAddr) -> (r: Option<Self>)
        ensures
            r == (if table.address.addr_space_width == 0 && capabilities / 0x1_0000_0000
                <= HPET_MAX_PERIOD && table.address.address + hhdm_offset.0 <= u64::MAX {
                Some(
                    Hpet {
                        base: VirtAddr((table.address.address + hhdm_offset.0) as u64),
                        freq: capabilities / 0x1_0000_0000,
                    },
                )
            } else {
                None
            }),
    {
        if table.address.addr_space_width != 0 {
            return None;
        }
        if table.address.address > u64::MAX - hhdm_offset.0 {
            return None;
        }
        let freq = capabilities / 0x1_0000_0000;
        if freq > HPET_MAX_PERIOD {
            return None;
        }
        Some(Self { base: PhysAddr::new(table.address.address).as_hddm_virt(hhdm_offset), freq })
    }

    /// The value of the counter at which `ms` milliseconds have passed since
    /// it had the value `now`. `None` if the period of the counter is zero
    /// or the value does not fit.
    pub fn sleep(&self, now: u64, ms: u64) -> (r: Option<u64>)
        ensures
            r == (if self.freq != 0 && ms * 1_000_000_000_000 <= u64::MAX && now + (ms
                * 1_000_000_000_000) / (self.freq as int) <= u64::MAX {
                Some((now + (ms * 1_000_000_000_000) / (self.freq as int)) as u64)
            } else {
                None
            }),
    {
        if self.freq == 0 || ms > u64::MAX / 1_000_000_000_000 {
            return None;
        }
        let ticks = (ms * 1_000_000_000_000) / self.freq;
        if ticks > u64::MAX - now {
            return None;
        }
        Some(now + ticks)
    }

    /// The address at which the register is mapped.
    pub fn register_addr(&self, reg: u32) -> (r: VirtAddr)
        requires
            self.base.0 + reg <= u64::MAX,
        ensures
            r.0 == self.base.0 + reg,
    {
        self.base.offset(reg as u64)
    }
}

/// Sets up the timer in `slot` once: a slot that holds a timer stays as it
/// is.
pub fn init_hpet(slot: &mut Option<Hpet>, table: &HpetTable, capabilities: u64, hhdm_offset: VirtAddr)
    ensures
        *final(slot) == (if *old(slot) is Some {
            *old(slot)
        } else {
            if table.address.addr_space_width == 0 && capabilities / 0x1_0000_0000
                <= HPET_MAX_PERIOD && table.address.address + hhdm_offset.0 <= u64::MAX {
                Some(
                    Hpet {
                        base: VirtAddr((table.address.address + hhdm_offset.0) as u64),
                        freq: capabilities / 0x1_0000_0000,
                    },
                )
            } else {
                None
            }
        }),
{
    if slot.is_none() {
        *slot = Hpet::init(table, capabilities, hhdm_offset);
    }
}

/// The value of the counter of the timer in `slot` at which `ms`
/// milliseconds have passed since it had the value `now`. `None` if the slot
/// holds no timer, or the timer gives none.
pub fn hpet_sleep(slot: &Option<Hpet>, now: u64, ms: u64) -> (r: Option<u64>)
    ensures
        r == (match *slot {
            Some(hpet) => if hpet.freq != 0 && ms * 1_000_000_000_000 <= u64::MAX && now + (ms
                * 1_000_000_000_000) / (hpet.freq as int) <= u64::MAX {
                Some((now + (ms * 1_000_000_000_000) / (hpet.freq as int)) as u64)
            } else {
                None
            },
            None => None,
        }),
{
    match slot {
        Some(hpet) => hpet.sleep(now, ms),
        None => None,
    }
}

} // verus!
