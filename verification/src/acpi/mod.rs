//! The tables of ACPI, read from their bytes.

use vstd::prelude::*;

use crate::bytes::{checksum_valid, le_u32, read_u32_at, sums_to_zero};
use rsdt::Rsdt;

pub mod hpet;
pub mod madt;
pub mod rsdp;
pub mod rsdt;
pub mod xsdt;

verus! {

/// The number of bytes of the header of a table.
pub const SDT_HEADER_SIZE: usize = 36;

/// The tables that were found.
#[derive(Debug)]
pub struct AcpiTables {
    rsdt: Rsdt,
}

impl AcpiTables {
    /// The root table.
    pub closed spec fn root(&self) -> &Rsdt {
        &self.rsdt
    }

    /// The tables under the root table.
    pub fn new(rsdt: Rsdt) -> (r: Self)
        ensures
            r.root() == &rsdt,
    {
        Self { rsdt }
    }

    /// The root table.
    pub fn rsdt(&self) -> (r: &Rsdt)
        ensures
            r == self.root(),
    {
        &self.rsdt
    }
}

/// The four letters that name a table.
#[derive(Debug, Clone, Copy, PartialEq, Eq)]
pub struct SdtSignature(pub [u8; 4]);

impl SdtSignature {
    /// The four letters.
    pub open spec fn view(&self) -> Seq<u8> {
        self.0@
    }

    /// Whether the two signatures are the same four letters.
    pub fn same(&self, other: &SdtSignature) -> (r: bool)
        ensures
            r == (self@ == other@),
    {
        let r = self.0[0] == other.0[0] && self.0[1] == other.0[1] && self.0[2] == other.0[2]
            && self.0[3] == other.0[3];
        proof {
            if r {
                assert(self@ =~= other@);
            }
        }
        r
    }

    /// The signature in the four bytes from `at` on.
    pub fn read(bytes: &Vec<u8>, at: usize) -> (r: Self)
        requires
            at + 4 <= bytes@.len(),
        ensures
            r@ == bytes@.subrange(at as int, at + 4),
    {
        let len: usize = bytes.len();
        let r = SdtSignature([bytes[at], bytes[at + 1], bytes[at + 2], bytes[at + 3]]);
        assert(r@ =~= bytes@.subrange(at as int, at + 4));
        r
    }
}

/// The header of a table.
#[derive(Debug, Clone, Copy)]
pub struct SdtHeader {
    /// The name of the table.
    pub signature: SdtSignature,
    /// The length of the table in bytes, header included.
    pub length: u32,
    /// The revision of the table.
    pub revision: u8,
    /// The byte that makes the bytes of the table add up to zero.
    pub checksum: u8,
    /// The name of the maker.
    pub oem_id: [u8; 6],
    /// The maker's name of the table.
    pub oem_table_id: [u8; 8],
    /// The maker's revision of the table.
    pub oem_revision: u32,
    /// The maker of the tool that made the table.
    pub creator_id: u32,
    /// The revision of that tool.
    pub creator_revision: u32,
}

impl SdtHeader {
    /// The header is the one that the first 36 bytes of the table hold.
    pub open spec fn decodes(&self, table: Seq<u8>) -> bool {
        &&& table.len() >= 36
        &&& self.signature@ == table.subrange(0, 4)
        &&& self.length == le_u32(table, 4)
        &&& self.revision == table[8]
        &&& self.checksum == table[9]
        &&& self.oem_id@ == table.subrange(10, 16)
        &&& self.oem_table_id@ == table.subrange(16, 24)
        &&& self.oem_revision == le_u32(table, 24)
        &&& self.creator_id == le_u32(table, 28)
        &&& self.creator_revision == le_u32(table, 32)
    }

    /// The table is whole and sound: it holds a header and as many bytes as
    /// its header says, and they add up to zero.
    pub open spec fn sound(table: Seq<u8>) -> bool {
        &&& table.len() >= 36
        &&& le_u32(table, 4) <= table.len()
        &&& sums_to_zero(table.take(le_u32(table, 4)))
    }

    /// The header that the first 36 bytes of the table hold.
    pub fn read(table: &Vec<u8>) -> (r: Self)
        requires
            table@.len() >= 36,
        ensures
            r.decodes(table@),
    {
        let oem_id = [table[10], table[11], table[12], table[13], table[14], table[15]];
        let oem_table_id = [
            table[16],
            table[17],
            table[18],
            table[19],
            table[20],
            table[21],
            table[22],
            table[23],
        ];
        let r = SdtHeader {
            signature: SdtSignature::read(table, 0),
            length: read_u32_at(table, 4),
            revision: table[8],
            checksum: table[9],
            oem_id,
            oem_table_id,
            oem_revision: read_u32_at(table, 24),
            creator_id: read_u32_at(table, 28),
            creator_revision: read_u32_at(table, 32),
        };
        assert(r.oem_id@ =~= table@.subrange(10, 16));
        assert(r.oem_table_id@ =~= table@.subrange(16, 24));
        r
    }

    /// The header of the table, if the table has the signature and is sound.
    pub fn parse(table: &Vec<u8>, signature: SdtSignature) -> (r: Option<Self>)
        ensures
            match r {
                Some(header) => header.decodes(table@) && Self::sound(table@) && header.signature@
                    == signature@,
                None => !(Self::sound(table@) && table@.subrange(0, 4) == signature@),
            },
    {
        if table.len() < SDT_HEADER_SIZE {
            return None;
        }
        let header = Self::read(table);
        if header.signature.same(&signature) && header.validate_checksum(table) {
            return Some(header);
        }
        None
    }

    /// The header of the table, if the table is sound.
    pub fn parse_from_addr(table: &Vec<u8>) -> (r: Option<Self>)
        ensures
            match r {
                Some(header) => header.decodes(table@) && Self::sound(table@),
                None => !Self::sound(table@),
            },
    {
        if table.len() < SDT_HEADER_SIZE {
            return None;
        }
        let header = Self::read(table);
        if header.validate_checksum(table) {
            return Some(header);
        }
        None
    }

    /// Whether the table holds as many bytes as the header says, and they add
    /// up to zero.
    pub fn validate_checksum(&self, table: &Vec<u8>) -> (r: bool)
        requires
            self.decodes(table@),
        ensures
            r == Self::sound(table@),
    {
        if self.length as u64 > table.len() as u64 {
            return false;
        }
        checksum_valid(table, self.length as usize)
    }
}

} // verus!
