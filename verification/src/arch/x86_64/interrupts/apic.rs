//! The local APIC and the I/O APICs.

use vstd::prelude::*;

use crate::memory::addr::VirtAddr;

verus! {

/// The kind of APIC that the processor has.
#[derive(Debug, Clone, Copy, PartialEq, Eq, Structural)]
pub enum ApicType {
    /// The APIC is reached through memory.
    Xapic,
    /// The APIC is reached through machine registers.
    X2apic,
    /// The processor has no APIC.
    Absent,
}

impl ApicType {
    /// The kind of APIC of a processor, from the features that it reports:
    /// whether it has an x2APIC, and whether it has an APIC.
    pub fn from_features(has_x2apic: bool, has_apic: bool) -> (r: Self)
        ensures
            r == (if has_x2apic {
                ApicType::X2apic
            } else if has_apic {
                ApicType::Xapic
            } else {
                ApicType::Absent
            }),
    {
        if has_x2apic {
            Self::X2apic
        } else if has_apic {
            Self::Xapic
        } else {
            Self::Absent
        }
    }
}

/// The local APIC of a processor.
#[derive(Debug, Clone, Copy, PartialEq, Eq, Structural)]
pub struct LocalApic {
    /// Where the registers of the APIC are mapped.
    pub addr: VirtAddr,
    /// The kind of the APIC.
    pub apic_type: ApicType,
}

impl LocalApic {
    /// The local APIC of the given kind whose registers are mapped at `addr`.
    pub fn new(addr: VirtAddr, apic_type: ApicType) -> (r: Self)
        ensures
            r.addr == addr,
            r.apic_type == apic_type,
    {
        Self { addr, apic_type }
    }

    /// The address at which the register is mapped.
    pub fn register_to_xapic_addr(&self, register: u32) -> (r: VirtAddr)
        requires
            self.addr.0 + register <= u64::MAX,
        ensures
            r.0 == self.addr.0 + register,
    {
        self.addr.offset(register as u64)
    }

    /// The number of ticks that the timer counted down from its largest
    /// start value to `current`.
    pub fn elapsed_ticks(current: u32) -> (r: u32)
        ensures
            r == 0xFFFF_FFFF - current,
    {
        0xFFFF_FFFF - current
    }
}

/// What the processors know of each other while they start.
#[derive(Debug, Clone, Copy, PartialEq, Eq, Structural)]
pub struct ApicState {
    /// The number of processors.
    pub cpu_count: usize,
    /// The id of the APIC of the processor that booted.
    pub bsp_apic_id: u64,
    /// The processor that booted has initialized its APIC.
    pub bsp_ready: bool,
}

impl ApicState {
    /// The state before any processor was counted.
    pub fn new() -> (r: Self)
        ensures
            r == (ApicState { cpu_count: 0, bsp_apic_id: 0, bsp_ready: false }),
    {
        Self { cpu_count: 0, bsp_apic_id: 0, bsp_ready: false }
    }

    /// The number of processors.
    pub fn get_cpu_count(&self) -> (r: usize)
        ensures
            r == self.cpu_count,
    {
        self.cpu_count
    }

    /// The id of the APIC of the processor that booted.
    pub fn get_bsp_id(&self) -> (r: u64)
        ensures
            r == self.bsp_apic_id,
    {
        self.bsp_apic_id
    }

    /// Whether the processor that booted has initialized its APIC.
    pub fn get_bsp_ready(&self) -> (r: bool)
        ensures
            r == self.bsp_ready,
    {
        self.bsp_ready
    }

    /// Records that the processor that booted has initialized its APIC.
    pub fn set_bsp_ready(&mut self)
        ensures
            *final(self) == (ApicState { bsp_ready: true, ..*old(self) }),
    {
        self.bsp_ready = true;
    }
}

/// What is known of one I/O APIC: the first interrupt that it takes, and the
/// number of its last redirection entry.
#[derive(Debug, Clone, Copy, PartialEq, Eq, Structural)]
pub struct IoApicRange {
    /// The first global system interrupt of the I/O APIC.
    pub interrupt_base: u32,
    /// The number of the last redirection entry of the I/O APIC.
    pub max_redirect: u32,
}

impl IoApicRange {
    /// Whether the I/O APIC is taken for the interrupt: its first interrupt
    /// is not above it, or its last one lies above it.
    pub open spec fn takes(self, gsi: u32) -> bool {
        self.interrupt_base <= gsi || self.interrupt_base + self.max_redirect > gsi
    }
}

/// An entry of the table of interrupt source overrides.
#[derive(Debug, Clone, Copy, PartialEq, Eq, Structural)]
pub struct IrqOverride {
    /// The interrupt of the legacy controller.
    pub irq: u8,
    /// The global system interrupt that it is wired to.
    pub system_int: u32,
    /// The flags of the override.
    pub flags: u16,
}

/// Two writes to registers of an I/O APIC that set a redirection entry.
#[derive(Debug, Clone, Copy, PartialEq, Eq, Structural)]
pub struct RedirectWrite {
    /// The index of the I/O APIC.
    pub ioapic: usize,
    /// The register of the lower word of the entry; the upper word is the
    /// next register.
    pub register: u32,
    /// The lower word of the entry.
    pub low: u32,
    /// The upper word of the entry.
    pub high: u32,
}

/// The index of the first I/O APIC that takes the interrupt, or the number
/// of I/O APICs if none does.
pub open spec fn first_taking(ioapics: Seq<IoApicRange>, gsi: u32) -> int
    decreases ioapics.len(),
{
    if ioapics.len() == 0 {
        0
    } else if ioapics[0].takes(gsi) {
        0
    } else {
        1 + first_taking(ioapics.drop_first(), gsi)
    }
}

/// The first taking I/O APIC is the lowest index whose I/O APIC takes the
/// interrupt.
pub proof fn lemma_first_taking(ioapics: Seq<IoApicRange>, gsi: u32, i: int)
    requires
        0 <= i <= ioapics.len(),
        forall|j: int| 0 <= j < i ==> !(#[trigger] ioapics[j]).takes(gsi),
        i < ioapics.len() ==> ioapics[i].takes(gsi),
    ensures
        first_taking(ioapics, gsi) == i,
    decreases ioapics.len(),
{
    if ioapics.len() > 0 && i > 0 {
        let rest = ioapics.drop_first();
        assert(!ioapics[0].takes(gsi));
        assert forall|j: int| 0 <= j < i - 1 implies !(#[trigger] rest[j]).takes(gsi) by {
            assert(rest[j] == ioapics[j + 1]);
        }
        lemma_first_taking(rest, gsi, i - 1);
    }
}

/// The index of the first I/O APIC that takes the interrupt.
pub fn ioapic_from_redirect(ioapics: &Vec<IoApicRange>, gsi: u32) -> (r: Option<usize>)
    ensures
        match r {
            Some(i) => i == first_taking(ioapics@, gsi) && i < ioapics@.len(),
            None => first_taking(ioapics@, gsi) == ioapics@.len(),
        },
{
    let mut i: usize = 0;
    while i < ioapics.len()
        invariant
            i <= ioapics@.len(),
            forall|j: int| 0 <= j < i ==> !(#[trigger] ioapics@[j]).takes(gsi),
        decreases ioapics@.len() - i,
    {
        let entry = ioapics[i];
        let max_redirect = entry.interrupt_base as u64 + entry.max_redirect as u64 > gsi as u64;
        if entry.interrupt_base <= gsi || max_redirect {
            proof {
                lemma_first_taking(ioapics@, gsi, i as int);
            }
            return Some(i);
        }
        i += 1;
    }
    proof {
        lemma_first_taking(ioapics@, gsi, ioapics@.len() as int);
    }
    None
}

/// The writes that route the interrupt `gsi` to the vector: the redirection
/// entry of the interrupt in the first I/O APIC that takes it holds the
/// vector. `None` if no I/O APIC takes the interrupt, or the one that does
/// starts above it.
pub open spec fn redirect_of(ioapics: Seq<IoApicRange>, vec: u8, gsi: u32) -> Option<RedirectWrite> {
    let i = first_taking(ioapics, gsi);
    if i < ioapics.len() && ioapics[i].interrupt_base <= gsi && (gsi - ioapics[i].interrupt_base)
        * 2 + 16 <= u32::MAX {
        Some(
            RedirectWrite {
                ioapic: i as usize,
                register: ((gsi - ioapics[i].interrupt_base) * 2 + 16) as u32,
                low: vec as u32,
                high: 0,
            },
        )
    } else {
        None
    }
}

/// The writes that route the interrupt `gsi` to the vector.
pub fn ioapic_set_redirect(ioapics: &Vec<IoApicRange>, vec: u8, gsi: u32, flags: u16, status: i32) -> (r:
    Option<RedirectWrite>)
    ensures
        r == redirect_of(ioapics@, vec, gsi),
{
    match ioapic_from_redirect(ioapics, gsi) {
        Some(ioapic) => {
            let entry = ioapics[ioapic];
            if entry.interrupt_base > gsi || gsi - entry.interrupt_base > 0x7FFF_FFF7 {
                return None;
            }
            let ioredtbl = (gsi - entry.interrupt_base) * 2 + 16;
            Some(RedirectWrite { ioapic, register: ioredtbl, low: vec as u32, high: 0 })
        },
        None => None,
    }
}

/// The index of the first override of the interrupt `irq`, or the number of
/// overrides if there is none.
pub open spec fn first_override(overrides: Seq<IrqOverride>, irq: u8) -> int
    decreases overrides.len(),
{
    if overrides.len() == 0 {
        0
    } else if overrides[0].irq == irq {
        0
    } else {
        1 + first_override(overrides.drop_first(), irq)
    }
}

/// The first override is the lowest index whose override is for the
/// interrupt.
pub proof fn lemma_first_override(overrides: Seq<IrqOverride>, irq: u8, i: int)
    requires
        0 <= i <= overrides.len(),
        forall|j: int| 0 <= j < i ==> (#[trigger] overrides[j]).irq != irq,
        i < overrides.len() ==> overrides[i].irq == irq,
    ensures
        first_override(overrides, irq) == i,
    decreases overrides.len(),
{
    if overrides.len() > 0 && i > 0 {
        let rest = overrides.drop_first();
        assert(overrides[0].irq != irq);
        assert forall|j: int| 0 <= j < i - 1 implies (#[trigger] rest[j]).irq != irq by {
            assert(rest[j] == overrides[j + 1]);
        }
        lemma_first_override(rest, irq, i - 1);
    }
}

/// The writes that route the interrupt `irq` of the legacy controller to the
/// vector: the interrupt is the one that its first override wires it to, and
/// itself if it has none.
pub fn ioapic_setup_irq(
    overrides: &Vec<IrqOverride>,
    ioapics: &Vec<IoApicRange>,
    irq: u8,
    vec: u8,
    status: i32,
) -> (r: Option<RedirectWrite>)
    ensures
        r == (if first_override(overrides@, irq) < overrides@.len() {
            redirect_of(ioapics@, vec, overrides@[first_override(overrides@, irq)].system_int)
        } else {
            redirect_of(ioapics@, vec, irq as u32)
        }),
{
    let mut i: usize = 0;
    while i < overrides.len()
        invariant
            i <= overrides@.len(),
            forall|j: int| 0 <= j < i ==> (#[trigger] overrides@[j]).irq != irq,
        decreases overrides@.len() - i,
    {
        let entry = overrides[i];
        if entry.irq == irq {
            proof {
                lemma_first_override(overrides@, irq, i as int);
            }
            return ioapic_set_redirect(ioapics, vec, entry.system_int, entry.flags, status);
        }
        i += 1;
    }
    proof {
        lemma_first_override(overrides@, irq, overrides@.len() as int);
    }
    ioapic_set_redirect(ioapics, vec, irq as u32, 0, status)
}

} // verus!
