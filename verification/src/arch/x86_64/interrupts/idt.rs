//! The Interrupt Descriptor Table (IDT).

use vstd::prelude::*;

use crate::arch::x86_64::gdt::{SegmentSelector, KERNEL_CODE_INDEX};
use crate::arch::x86_64::PrivilegeLevel;

verus! {

/// The number of entries of the table.
pub const IDT_ENTRIES: usize = 256;

/// Represents the type of interrupt that occurs.
#[derive(Debug, Copy, Clone, PartialEq, Eq, Structural)]
pub enum GateType {
    /// An interrupt gate, entries with this type will disable interrupts
    /// while the handler is running.
    Interrupt,
    /// A trap gate, entries with this type will not disable interrupts while
    /// the handler is running.
    Trap,
}

impl GateType {
    /// The number of the type in an entry: 0x0E for an interrupt gate, 0x0F
    /// for a trap gate.
    pub open spec fn code(self) -> u8 {
        match self {
            GateType::Interrupt => 0x0E,
            GateType::Trap => 0x0F,
        }
    }

    /// The number of the type in an entry.
    pub fn bits(self) -> (r: u8)
        ensures
            r == self.code(),
    {
        match self {
            GateType::Interrupt => 0x0E,
            GateType::Trap => 0x0F,
        }
    }

    /// The type with the number `value`, which is 0x0E or 0x0F.
    pub fn from_code(value: u8) -> (r: Self)
        requires
            value == 0x0E || value == 0x0F,
        ensures
            r.code() == value,
    {
        if value == 0x0E {
            GateType::Interrupt
        } else {
            GateType::Trap
        }
    }
}

/// What an IDT entry says beside its address: the present bit, the privilege level
/// allowed to call the interrupt in bits 5 and 6, and the type of gate in
/// bits 0 to 3.
#[derive(Debug, Clone, Copy, PartialEq, Eq, Structural)]
pub struct IdtEntryAttributes(pub u8);

/// What the parts of the attributes of an entry are.
proof fn lemma_attributes(ring: u8, gate: u8)
    by (bit_vector)
    requires
        ring == 0 || ring == 3,
        gate == 0x0E || gate == 0x0F,
    ensures
        ((0x80u8 | (ring << 5) | gate) & 0x0F) == gate,
        (((0x80u8 | (ring << 5) | gate) >> 5) & 0x03) == ring,
        (0x80u8 | (ring << 5) | gate) == 0x80 + ring * 32 + gate,
{
}

impl IdtEntryAttributes {
    /// The attributes are those of a present entry with a privilege level and
    /// a gate type.
    pub open spec fn wf(self) -> bool {
        exists|privilege: PrivilegeLevel, gate_type: GateType|
            self.0 == #[trigger] attributes_of(privilege, gate_type)
    }

    /// Create a new IDT entry attributes structure with the corresponding
    /// [`PrivilegeLevel`] and [`GateType`].
    pub fn new(privilege: PrivilegeLevel, gate_type: GateType) -> (r: Self)
        ensures
            r.0 == attributes_of(privilege, gate_type),
            r.wf(),
    {
        let ring = privilege.bits();
        let gate = gate_type.bits();
        proof {
            lemma_attributes(ring, gate);
        }
        let r = IdtEntryAttributes(0x80u8 | (ring << 5) | gate);
        assert(r.0 == attributes_of(privilege, gate_type));
        r
    }

    /// Create a new IDT entry attributes structure with default values.
    /// This will create an interrupt gate with kernel privilege level.
    pub fn default() -> (r: Self)
        ensures
            r.0 == 0x8E,
            r.wf(),
    {
        Self::new(PrivilegeLevel::Kernel, GateType::Interrupt)
    }

    /// Get the [`GateType`] of the IDT entry.
    pub fn gate_type(self) -> (r: GateType)
        requires
            self.wf(),
        ensures
            exists|privilege: PrivilegeLevel| self.0 == #[trigger] attributes_of(privilege, r),
    {
        let ghost (privilege, gate_type) = choose|privilege: PrivilegeLevel, gate_type: GateType|
            self.0 == #[trigger] attributes_of(privilege, gate_type);
        proof {
            lemma_attributes(privilege.ring(), gate_type.code());
        }
        GateType::from_code(self.0 & 0x0F)
    }

    /// Get the [`PrivilegeLevel`] of the IDT entry.
    pub fn privilege(self) -> (r: PrivilegeLevel)
        requires
            self.wf(),
        ensures
            exists|gate_type: GateType| self.0 == #[trigger] attributes_of(r, gate_type),
    {
        let ghost (privilege, gate_type) = choose|privilege: PrivilegeLevel, gate_type: GateType|
            self.0 == #[trigger] attributes_of(privilege, gate_type);
        proof {
            lemma_attributes(privilege.ring(), gate_type.code());
        }
        PrivilegeLevel::from_ring((self.0 >> 5) & 0x03)
    }
}

/// The byte of a present entry with a privilege level and a type of gate.
pub open spec fn attributes_of(privilege: PrivilegeLevel, gate_type: GateType) -> u8 {
    (0x80 + privilege.ring() * 32 + gate_type.code()) as u8
}

/// In-memory representation of an IDT entry.
#[derive(Debug, Clone, Copy, PartialEq, Eq, Structural)]
pub struct IdtEntry {
    /// The lower 16 bits of the address of the interrupt handler function.
    pub offset_low: u16,
    /// The segment selector that the CPU will load when the interrupt
    /// handler is called.
    pub selector: SegmentSelector,
    /// The Interrupt Stack Table index to use for this interrupt.
    pub ist: u8,
    /// The attributes of the IDT entry
    pub attributes: IdtEntryAttributes,
    /// The middle 16 bits of the address of the interrupt handler function.
    pub offset_middle: u16,
    /// The upper 32 bits of the address of the interrupt handler function.
    pub offset_high: u32,
    /// Reserved field, must be set to 0.
    pub reserved: u32,
}

/// An empty IDT entry used as a placeholder: a null function pointer, the
/// selector of the kernel's code, and default attributes.
pub open spec fn empty_entry() -> IdtEntry {
    IdtEntry {
        offset_low: 0,
        selector: SegmentSelector(8),
        ist: 0,
        attributes: IdtEntryAttributes(0x8E),
        offset_middle: 0,
        offset_high: 0,
        reserved: 0,
    }
}

/// What the parts of an address are.
proof fn lemma_offset_parts(offset: u64)
    by (bit_vector)
    ensures
        (offset & 0xffff) as u16 == offset % 0x1_0000,
        ((offset >> 16) & 0xffff) as u16 == (offset / 0x1_0000) % 0x1_0000,
        (offset >> 32) as u32 == offset / 0x1_0000_0000,
        (offset & 0xffff) + 0x1_0000 * ((offset >> 16) & 0xffff) + 0x1_0000_0000 * (offset >> 32)
            == offset,
{
}

impl IdtEntry {
    /// The address of the handler of the entry.
    pub open spec fn offset(self) -> int {
        self.offset_low + 0x1_0000 * self.offset_middle + 0x1_0000_0000 * self.offset_high
    }

    /// The entry with the address of its handler set to `offset`.
    pub open spec fn with_offset(self, offset: u64) -> IdtEntry {
        IdtEntry {
            offset_low: (offset % 0x1_0000) as u16,
            offset_middle: ((offset / 0x1_0000) % 0x1_0000) as u16,
            offset_high: (offset / 0x1_0000_0000) as u32,
            ..self
        }
    }

    /// The address that was set can be read back.
    pub proof fn lemma_offset_round_trip(self, offset: u64)
        ensures
            self.with_offset(offset).offset() == offset,
    {
        lemma_offset_parts(offset);
    }

    /// Create a new IDT entry, with a given offset, segment selector, and
    /// attributes.
    pub fn new(offset: u64, selector: SegmentSelector, attributes: IdtEntryAttributes) -> (r: Self)
        ensures
            r == (IdtEntry {
                offset_low: 0,
                selector,
                ist: 0,
                attributes,
                offset_middle: 0,
                offset_high: 0,
                reserved: 0,
            }).with_offset(offset),
            r.offset() == offset,
    {
        proof {
            lemma_offset_parts(offset);
        }
        IdtEntry {
            offset_low: (offset & 0xffff) as u16,
            selector,
            ist: 0,
            attributes,
            offset_middle: ((offset >> 16) & 0xffff) as u16,
            offset_high: (offset >> 32) as u32,
            reserved: 0,
        }
    }

    /// An empty IDT entry used as a placeholder.
    pub fn empty() -> (r: Self)
        ensures
            r == empty_entry(),
    {
        Self::new(
            0,
            SegmentSelector::new(KERNEL_CODE_INDEX, PrivilegeLevel::Kernel),
            IdtEntryAttributes::default(),
        )
    }

    /// Set the function pointer of the IDT entry to the address `func`.
    pub fn set_func(&mut self, func: u64)
        ensures
            *final(self) == old(self).with_offset(func),
            final(self).offset() == func,
    {
        proof {
            lemma_offset_parts(func);
        }
        self.offset_low = (func & 0xffff) as u16;
        self.offset_middle = ((func >> 16) & 0xffff) as u16;
        self.offset_high = (func >> 32) as u32;
    }
}

/// The Interrupt Descriptor Table (IDT) descriptor. This structure will get
/// loaded into the CPU through the `lidt` instruction.
#[derive(Debug, Clone, Copy, PartialEq, Eq, Structural)]
pub struct IdtDescriptor {
    /// The size of the IDT in bytes minus 1.
    pub size: u16,
    /// The address of the IDT in memory.
    pub offset: u64,
}

impl IdtDescriptor {
    /// Create a new IDT descriptor.
    pub fn new(size: u16, offset: u64) -> (r: Self)
        ensures
            r.size == size,
            r.offset == offset,
    {
        IdtDescriptor { size, offset }
    }

    /// The descriptor of the table of [`IDT_ENTRIES`] entries of sixteen
    /// bytes at `offset`.
    pub fn for_table(offset: u64) -> (r: Self)
        ensures
            r.size == 4095,
            r.offset == offset,
    {
        Self::new((IDT_ENTRIES * 16 - 1) as u16, offset)
    }
}

/// An Interrupt Descriptor Table (IDT)
#[derive(Debug)]
pub struct Idt {
    entries: Vec<IdtEntry>,
}

impl Idt {
    /// The entries of the IDT.
    pub closed spec fn view(&self) -> Seq<IdtEntry> {
        self.entries@
    }

    /// The table has 256 entries.
    pub open spec fn wf(&self) -> bool {
        self@.len() == 256
    }

    /// Create a new empty IDT
    pub fn new() -> (r: Self)
        ensures
            r.wf(),
            forall|i: int| 0 <= i < 256 ==> r@[i] == empty_entry(),
    {
        let mut entries: Vec<IdtEntry> = Vec::new();
        let empty = IdtEntry::empty();
        let mut i: usize = 0;
        while i < IDT_ENTRIES
            invariant
                i <= 256,
                empty == empty_entry(),
                entries@.len() == i,
                forall|j: int| 0 <= j < i ==> entries@[j] == empty_entry(),
            decreases 256 - i,
        {
            entries.push(empty);
            i += 1;
        }
        Self { entries }
    }

    /// The entry of the vector.
    pub fn entry(&self, vector: u8) -> (r: IdtEntry)
        requires
            self.wf(),
        ensures
            r == self@[vector as int],
    {
        self.entries[vector as usize]
    }

    /// Sets the address of the handler of the vector to `func`.
    pub fn set_func(&mut self, vector: u8, func: u64)
        requires
            old(self).wf(),
        ensures
            final(self).wf(),
            final(self)@ == old(self)@.update(
                vector as int,
                old(self)@[vector as int].with_offset(func),
            ),
    {
        let mut entry = self.entries[vector as usize];
        entry.set_func(func);
        self.entries.set(vector as usize, entry);
    }
}

} // verus!
