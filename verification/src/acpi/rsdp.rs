//! The root pointer of ACPI: where the root table lies.

use vstd::prelude::*;

use super::rsdt::RsdtAddr;
use crate::bytes::{checksum_valid, le_u32, read_u32_at, sums_to_zero};
use crate::memory::addr::{PhysAddr, VirtAddr};

verus! {

/// The number of bytes of the root pointer of the first revision.
pub const RSDP_V1_SIZE: usize = 20;

/// The number of bytes of the root pointer of the second revision.
pub const RSDP_V2_SIZE: usize = 32;

/// The eight letters that every root pointer starts with.
pub open spec fn rsdp_signature() -> Seq<u8> {
    seq![0x52u8, 0x53, 0x44, 0x20, 0x50, 0x54, 0x52, 0x20]
}

/// The root pointer of the first revision.
#[derive(Debug, Clone, Copy)]
pub struct RsdpV1 {
    /// The letters `RSD PTR `.
    pub signature: [u8; 8],
    /// The byte that makes the bytes add up to zero.
    pub checksum: u8,
    /// The name of the maker.
    pub oem_id: [u8; 6],
    /// The revision.
    pub revision: u8,
    /// The physical address of the root table.
    pub rsdt_addr: u32,
}

/// Whether the bytes start with the letters `RSD PTR `.
pub fn has_rsdp_signature(bytes: &Vec<u8>) -> (r: bool)
    requires
        bytes@.len() >= 8,
    ensures
        r == (bytes@.subrange(0, 8) == rsdp_signature()),
{
    let r = bytes[0] == 0x52 && bytes[1] == 0x53 && bytes[2] == 0x44 && bytes[3] == 0x20
        && bytes[4] == 0x50 && bytes[5] == 0x54 && bytes[6] == 0x52 && bytes[7] == 0x20;
    proof {
        let head = bytes@.subrange(0, 8);
        if r {
            assert(head =~= rsdp_signature());
        } else {
            assert(head[0] == bytes@[0] && head[1] == bytes@[1] && head[2] == bytes@[2] && head[3]
                == bytes@[3] && head[4] == bytes@[4] && head[5] == bytes@[5] && head[6]
                == bytes@[6] && head[7] == bytes@[7]);
        }
    }
    r
}

impl RsdpV1 {
    /// The bytes hold a sound root pointer of the first revision: the
    /// letters, and twenty bytes that add up to zero.
    pub open spec fn valid(bytes: Seq<u8>) -> bool {
        &&& bytes.len() >= 20
        &&& bytes.subrange(0, 8) == rsdp_signature()
        &&& sums_to_zero(bytes.take(20))
    }

    /// Whether the bytes hold a sound root pointer of the first revision.
    pub fn validate_rsdp(bytes: &Vec<u8>) -> (r: bool)
        ensures
            r == Self::valid(bytes@),
    {
        if bytes.len() < RSDP_V1_SIZE {
            return false;
        }
        has_rsdp_signature(bytes) && checksum_valid(bytes, RSDP_V1_SIZE)
    }

    /// The root pointer that the first twenty bytes hold.
    pub fn read(bytes: &Vec<u8>) -> (r: Self)
        requires
            bytes@.len() >= 20,
        ensures
            r.signature@ == bytes@.subrange(0, 8),
            r.checksum == bytes@[8],
            r.oem_id@ == bytes@.subrange(9, 15),
            r.revision == bytes@[15],
            r.rsdt_addr == le_u32(bytes@, 16),
    {
        let signature = [
            bytes[0],
            bytes[1],
            bytes[2],
            bytes[3],
            bytes[4],
            bytes[5],
            bytes[6],
            bytes[7],
        ];
        let oem_id = [bytes[9], bytes[10], bytes[11], bytes[12], bytes[13], bytes[14]];
        assert(signature@ =~= bytes@.subrange(0, 8));
        assert(oem_id@ =~= bytes@.subrange(9, 15));
        RsdpV1 {
            signature,
            checksum: bytes[8],
            oem_id,
            revision: bytes[15],
            rsdt_addr: read_u32_at(bytes, 16),
        }
    }
}

/// The bytes hold a sound root pointer of the second revision: the letters,
/// and as many bytes as the length at byte 20 says, which add up to zero.
pub open spec fn valid_v2(bytes: Seq<u8>) -> bool {
    &&& bytes.len() >= 32
    &&& bytes.subrange(0, 8) == rsdp_signature()
    &&& le_u32(bytes, 20) <= bytes.len()
    &&& sums_to_zero(bytes.take(le_u32(bytes, 20)))
}

/// The root pointer names an extended root table: it is of the second
/// revision at least and the address at byte 24 is not zero.
pub open spec fn names_xsdt(bytes: Seq<u8>) -> bool {
    bytes.len() >= 32 && bytes[15] >= 2 && le_u32(bytes, 24) != 0
}

/// Where the root table lies, by the root pointer: the extended root table
/// if the pointer names one, else the root table; each at its physical
/// address plus the offset of the direct map. `None` if the pointer is not
/// sound or the address does not fit.
pub fn find_rsdt_addr(rsdp: &Vec<u8>, hhdm_offset: VirtAddr) -> (r: Option<RsdtAddr>)
    ensures
        r == (if names_xsdt(rsdp@) {
            if valid_v2(rsdp@) && le_u32(rsdp@, 24) + hhdm_offset.0 <= u64::MAX {
                Some(RsdtAddr::Xsdt(VirtAddr((le_u32(rsdp@, 24) + hhdm_offset.0) as u64)))
            } else {
                None
            }
        } else {
            if RsdpV1::valid(rsdp@) && le_u32(rsdp@, 16) + hhdm_offset.0 <= u64::MAX {
                Some(RsdtAddr::Rsdt(VirtAddr((le_u32(rsdp@, 16) + hhdm_offset.0) as u64)))
            } else {
                None
            }
        }),
{
    let is_v2 = rsdp.len() >= RSDP_V2_SIZE && rsdp[15] >= 2 && read_u32_at(rsdp, 24) != 0;
    if is_v2 {
        let length = read_u32_at(rsdp, 20);
        if !has_rsdp_signature(rsdp) || length as u64 > rsdp.len() as u64 || !checksum_valid(
            rsdp,
            length as usize,
        ) {
            return None;
        }
        let xsdt_addr = read_u32_at(rsdp, 24) as u64;
        if xsdt_addr > u64::MAX - hhdm_offset.0 {
            return None;
        }
        Some(RsdtAddr::Xsdt(PhysAddr::new(xsdt_addr).as_hddm_virt(hhdm_offset)))
    } else {
        if !RsdpV1::validate_rsdp(rsdp) {
            return None;
        }
        let v1 = RsdpV1::read(rsdp);
        let rsdt_addr = v1.rsdt_addr as u64;
        if rsdt_addr > u64::MAX - hhdm_offset.0 {
            return None;
        }
        Some(RsdtAddr::Rsdt(PhysAddr::new(rsdt_addr).as_hddm_virt(hhdm_offset)))
    }
}

} // verus!
