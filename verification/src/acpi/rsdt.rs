//! The root table of ACPI: the addresses of the other tables.

use vstd::prelude::*;

use super::{SdtHeader, SdtSignature};
use crate::bytes::{le_u32, read_u32_at};
use crate::memory::addr::{PhysAddr, VirtAddr};

verus! {

/// Where the root table lies, and of which kind it is.
#[derive(Debug, Copy, Clone, PartialEq, Eq, Structural)]
pub enum RsdtAddr {
    /// The extended root table, whose entries are 64 bits wide.
    Xsdt(VirtAddr),
    /// The root table, whose entries are 32 bits wide.
    Rsdt(VirtAddr),
}

/// A table that the root table names.
#[derive(Debug, Copy, Clone)]
pub struct RsdtEntry {
    /// The name of the table.
    pub signature: SdtSignature,
    /// Where the table lies.
    pub addr: VirtAddr,
}

impl RsdtEntry {
    /// Where the table lies.
    pub fn addr(&self) -> (r: VirtAddr)
        ensures
            r == self.addr,
    {
        self.addr
    }
}

/// The letters `XSDT`.
pub open spec fn xsdt_signature() -> Seq<u8> {
    seq![0x58u8, 0x53, 0x44, 0x54]
}

/// The letters `RSDT`.
pub open spec fn rsdt_signature() -> Seq<u8> {
    seq![0x52u8, 0x53, 0x44, 0x54]
}

/// The number of entries of a root table of `length` bytes whose entries
/// are `width` bits wide.
pub open spec fn entry_count(length: int, width: int) -> int {
    (length - 36) / (width / 8)
}

/// The physical address that entry `i` of the root table holds.
pub open spec fn entry_pointer(table: Seq<u8>, width: int, i: int) -> int {
    if width == 64 {
        le_u32(table, 36 + i * 8) + 0x1_0000_0000 * le_u32(table, 36 + i * 8 + 4)
    } else {
        le_u32(table, 36 + i * 4)
    }
}

/// The physical addresses that the entries of a root table hold. The table
/// must hold as many bytes as its header says.
pub fn populate_sub_tables(table: &Vec<u8>, entries: usize, width: usize) -> (r: Vec<u64>)
    requires
        width == 32 || width == 64,
        36 + entries * (width / 8) <= table@.len(),
    ensures
        r@.len() == entries,
        forall|i: int| 0 <= i < entries ==> r@[i] == entry_pointer(table@, width as int, i),
{
    let mut pointers: Vec<u64> = Vec::new();
    let len: usize = table.len();
    let step = width / 8;
    let mut i: usize = 0;
    while i < entries
        invariant
            i <= entries,
            width == 32 || width == 64,
            step == width / 8,
            36 + entries * step <= table@.len(),
            table@.len() == len,
            pointers@.len() == i,
            forall|j: int| 0 <= j < i ==> pointers@[j] == entry_pointer(table@, width as int, j),
        decreases entries - i,
    {
        assert(36 + i * step + step <= 36 + entries * step && i * step >= 0) by (nonlinear_arith)
            requires
                0 <= i < entries,
                step >= 0,
        ;
        let at = 36 + i * step;
        let mut ptr: u64 = read_u32_at(table, at) as u64;
        if width == 64 {
            let ptr_high = read_u32_at(table, at + 4) as u64;
            ptr = ptr + 0x1_0000_0000 * ptr_high;
        }
        pointers.push(ptr);
        i += 1;
    }
    pointers
}

/// The width in bits of the entries of a root table of the kind of `addr`.
pub open spec fn entry_width(addr: RsdtAddr) -> int {
    if addr is Xsdt {
        64
    } else {
        32
    }
}

/// The bytes are a root table of the kind of `addr` that can be read with
/// `names` names: the table is sound, has the signature of its kind and as
/// many entries as there are names, and the address of each entry plus the
/// offset of the direct map fits.
pub open spec fn rsdt_readable(addr: RsdtAddr, table: Seq<u8>, names: int, hhdm_offset: u64) -> bool {
    let width = entry_width(addr);
    &&& SdtHeader::sound(table)
    &&& table.subrange(0, 4) == (if addr is Xsdt {
        xsdt_signature()
    } else {
        rsdt_signature()
    })
    &&& le_u32(table, 4) >= 36
    &&& names == entry_count(le_u32(table, 4), width)
    &&& forall|i: int|
        0 <= i < names ==> (#[trigger] entry_pointer(table, width, i)) + hhdm_offset <= u64::MAX
}

/// The root table: its header, and the tables that it names.
#[derive(Debug)]
pub struct Rsdt {
    header: SdtHeader,
    entries: usize,
    sub_tables: Vec<RsdtEntry>,
    addr_width: usize,
}

impl Rsdt {
    /// The tables that the root table names.
    pub closed spec fn view(&self) -> Seq<RsdtEntry> {
        self.sub_tables@
    }

    /// The width of the entries in bits.
    pub closed spec fn width(&self) -> int {
        self.addr_width as int
    }

    /// The root table from its bytes and from the names of the tables that
    /// its entries point to, in their order. The table must be sound and
    /// have the signature of its kind, and there must be a name for each
    /// entry; each table lies at the address of its entry plus the offset of
    /// the direct map.
    pub fn new(
        addr: RsdtAddr,
        table: &Vec<u8>,
        names: &Vec<SdtSignature>,
        hhdm_offset: VirtAddr,
    ) -> (r: Option<Self>)
        ensures
            r is Some <==> rsdt_readable(addr, table@, names@.len() as int, hhdm_offset.0),
            match r {
                Some(rsdt) => {
                    let width = entry_width(addr);
                    &&& rsdt.width() == width
                    &&& rsdt@.len() == names@.len()
                    &&& forall|i: int|
                        0 <= i < rsdt@.len() ==> (#[trigger] rsdt@[i]).signature@ == names@[i]@
                            && rsdt@[i].addr.0 == entry_pointer(table@, width, i) + hhdm_offset.0
                },
                None => true,
            },
    {
        let (signature, width): (SdtSignature, usize) = match addr {
            RsdtAddr::Xsdt(_) => (SdtSignature([0x58, 0x53, 0x44, 0x54]), 64),
            RsdtAddr::Rsdt(_) => (SdtSignature([0x52, 0x53, 0x44, 0x54]), 32),
        };
        proof {
            assert(addr is Xsdt ==> signature@ =~= xsdt_signature());
            assert(!(addr is Xsdt) ==> signature@ =~= rsdt_signature());
        }
        let header = match SdtHeader::parse(table, signature) {
            Some(header) => header,
            None => {
                return None;
            },
        };
        let step = width / 8;
        if header.length < 36 {
            return None;
        }
        let entries = (header.length as usize - 36) / step;
        if entries != names.len() {
            return None;
        }
        proof {
            vstd::arithmetic::div_mod::lemma_fundamental_div_mod(header.length - 36, step as int);
            assert(entries * step == step * entries) by (nonlinear_arith);
        }
        let pointers = populate_sub_tables(table, entries, width);
        let mut sub_tables: Vec<RsdtEntry> = Vec::new();
        let mut i: usize = 0;
        while i < entries
            invariant
                i <= entries,
                entries == names@.len(),
                pointers@.len() == entries,
                sub_tables@.len() == i,
                width == entry_width(addr),
                SdtHeader::sound(table@),
                table@.subrange(0, 4) == (if addr is Xsdt {
                    xsdt_signature()
                } else {
                    rsdt_signature()
                }),
                le_u32(table@, 4) >= 36,
                entries == entry_count(le_u32(table@, 4), width as int),
                forall|j: int|
                    0 <= j < entries ==> pointers@[j] == entry_pointer(table@, width as int, j),
                forall|j: int|
                    0 <= j < i ==> (#[trigger] sub_tables@[j]).signature@ == names@[j]@
                        && sub_tables@[j].addr.0 == entry_pointer(table@, width as int, j)
                        + hhdm_offset.0,
            decreases entries - i,
        {
            let ptr = pointers[i];
            if ptr > u64::MAX - hhdm_offset.0 {
                proof {
                    assert(entry_pointer(table@, entry_width(addr), i as int) + hhdm_offset.0
                        > u64::MAX);
                }
                return None;
            }
            sub_tables.push(
                RsdtEntry {
                    signature: names[i],
                    addr: PhysAddr::new(ptr).as_hddm_virt(hhdm_offset),
                },
            );
            i += 1;
        }
        proof {
            assert forall|i: int| 0 <= i < entries implies (#[trigger] entry_pointer(
                table@,
                entry_width(addr),
                i,
            )) + hhdm_offset.0 <= u64::MAX by {
                assert(sub_tables@[i].addr.0 == entry_pointer(table@, width as int, i)
                    + hhdm_offset.0);
            }
        }
        Some(Self { header, entries, sub_tables, addr_width: width })
    }

    /// The first table with the signature that the root table names.
    pub fn find_table(&self, signature: SdtSignature) -> (r: Option<RsdtEntry>)
        ensures
            match r {
                Some(entry) => exists|i: int|
                    0 <= i < self@.len() && entry.signature@ == signature@ && #[trigger] self@[i]
                        == entry && forall|j: int|
                        0 <= j < i ==> (#[trigger] self@[j]).signature@ != signature@,
                None => forall|j: int|
                    0 <= j < self@.len() ==> (#[trigger] self@[j]).signature@ != signature@,
            },
    {
        let mut i: usize = 0;
        while i < self.sub_tables.len()
            invariant
                i <= self.sub_tables@.len(),
                forall|j: int| 0 <= j < i ==> (#[trigger] self@[j]).signature@ != signature@,
            decreases self.sub_tables@.len() - i,
        {
            let table = self.sub_tables[i];
            if table.signature.same(&signature) {
                assert(self@[i as int] == table);
                return Some(table);
            }
            i += 1;
        }
        None
    }
}

} // verus!
