//! Physical and virtual address manipulation.

use vstd::prelude::*;
use vstd::arithmetic::power2::{lemma2_to64, lemma_pow2_pos, pow2};
use vstd::bits::{lemma_u64_low_bits_mask_is_mod, lemma_u64_pow2_no_overflow};

verus! {

/// `n` is a power of two that fits a machine word.
pub open spec fn is_power_of_two(n: u64) -> bool {
    exists|k: nat| k < 64 && n == #[trigger] pow2(k)
}

/// The largest multiple of `align` that does not exceed `addr`.
pub open spec fn align_down_spec(addr: int, align: int) -> int {
    addr - addr % align
}

/// The smallest multiple of `align` that is not below `addr`.
pub open spec fn align_up_spec(addr: int, align: int) -> int {
    if addr % align == 0 {
        addr
    } else {
        addr - addr % align + align
    }
}

/// For every mask, clearing the masked bits subtracts them and setting them
/// adds what was missing.
proof fn lemma_mask_split(a: u64, m: u64)
    by (bit_vector)
    ensures
        a & !m == (a - (a & m)) as u64,
        a | m == (a - (a & m)) + m,
        a & m <= a,
        a & m <= m,
{
}

/// Masking with `align - 1` is the remainder by `align`, for a power of two.
pub proof fn lemma_pow2_mask_is_mod(addr: u64, align: u64)
    requires
        is_power_of_two(align),
    ensures
        align > 0,
        addr & ((align - 1) as u64) == addr % align,
{
    let k = choose|k: nat| k < 64 && align == #[trigger] pow2(k);
    lemma_u64_pow2_no_overflow(k);
    lemma_pow2_pos(k);
    lemma_u64_low_bits_mask_is_mod(addr, k);
}

/// 4096 and its first ten doublings are powers of two.
pub proof fn lemma_block_sizes_are_pow2()
    ensures
        is_power_of_two(0x1000),
        is_power_of_two(0x2000),
        is_power_of_two(0x4000),
        is_power_of_two(0x8000),
        is_power_of_two(0x1_0000),
        is_power_of_two(0x2_0000),
        is_power_of_two(0x4_0000),
        is_power_of_two(0x8_0000),
        is_power_of_two(0x10_0000),
        is_power_of_two(0x20_0000),
        is_power_of_two(0x40_0000),
{
    lemma2_to64();
    assert(0x1000 == pow2(12));
    assert(0x2000 == pow2(13));
    assert(0x4000 == pow2(14));
    assert(0x8000 == pow2(15));
    assert(0x1_0000 == pow2(16));
    assert(0x2_0000 == pow2(17));
    assert(0x4_0000 == pow2(18));
    assert(0x8_0000 == pow2(19));
    assert(0x10_0000 == pow2(20));
    assert(0x20_0000 == pow2(21));
    assert(0x40_0000 == pow2(22));
}

/// Align upwards: the smallest `x` with alignment `align` such that `x >= addr`.
pub fn align_up(addr: u64, align: u64) -> (r: u64)
    requires
        is_power_of_two(align),
        align_up_spec(addr as int, align as int) <= u64::MAX,
    ensures
        r == align_up_spec(addr as int, align as int),
        r % align == 0,
        addr <= r < addr + align,
{
    proof {
        lemma_pow2_mask_is_mod(addr, align);
        lemma_mask_split(addr, (align - 1) as u64);
        lemma_aligned_steps(addr as int, align as int);
    }
    let mask = align - 1;
    if addr & mask == 0 {
        addr
    } else {
        (addr | mask) + 1
    }
}

/// Align downwards: the largest `x` with alignment `align` such that `x <= addr`.
pub fn align_down(addr: u64, align: u64) -> (r: u64)
    requires
        is_power_of_two(align),
    ensures
        r == align_down_spec(addr as int, align as int),
        r % align == 0,
        r <= addr < r + align,
{
    proof {
        lemma_pow2_mask_is_mod(addr, align);
        lemma_mask_split(addr, (align - 1) as u64);
        lemma_aligned_steps(addr as int, align as int);
    }
    addr & !(align - 1)
}

/// What is left after taking the remainder away is a multiple of the divisor,
/// and so is the next one.
pub proof fn lemma_aligned_steps(addr: int, align: int)
    requires
        addr >= 0,
        align > 0,
    ensures
        0 <= addr % align < align,
        (addr - addr % align) % align == 0,
        (addr - addr % align + align) % align == 0,
        align_down_spec(addr, align) % align == 0,
        align_up_spec(addr, align) % align == 0,
        align_down_spec(addr, align) <= addr < align_down_spec(addr, align) + align,
        addr <= align_up_spec(addr, align) < addr + align,
{
    vstd::arithmetic::div_mod::lemma_fundamental_div_mod(addr, align);
    vstd::arithmetic::div_mod::lemma_mod_multiples_basic(addr / align, align);
    vstd::arithmetic::div_mod::lemma_mod_multiples_basic(addr / align + 1, align);
    assert((addr / align + 1) * align == (addr / align) * align + align) by (nonlinear_arith);
    assert(align * (addr / align) == (addr / align) * align) by (nonlinear_arith);
}

/// Why an address cannot be read through.
#[derive(Debug, Copy, Clone, PartialEq, Eq, Structural)]
pub enum AddrError {
    /// Attempting to read from a null pointer.
    NullPointer,
    /// Address is not properly aligned to the type attempting to be read.
    NotAligned,
}

/// A representation of a virtual address.
#[derive(Debug, Copy, Clone, PartialEq, Eq, Structural, PartialOrd, Ord)]
pub struct VirtAddr(pub u64);

impl VirtAddr {
    /// Create a new virtual address.
    pub fn new(addr: u64) -> (r: Self)
        ensures
            r.0 == addr,
    {
        Self(addr)
    }

    /// Create a null virtual address that points to 0.
    pub fn null() -> (r: Self)
        ensures
            r.0 == 0,
    {
        Self(0)
    }

    /// Whether the address is 0.
    pub fn is_null(self) -> (r: bool)
        ensures
            r == (self.0 == 0),
    {
        self.0 == 0
    }

    /// Aligns the address downwards to the given alignment.
    pub fn align_down(self, align: u64) -> (r: Self)
        requires
            is_power_of_two(align),
        ensures
            r.0 == align_down_spec(self.0 as int, align as int),
            r.0 % align == 0,
            r.0 <= self.0 < r.0 + align,
    {
        Self(align_down(self.0, align))
    }

    /// Checks that a value whose type has alignment `align` can be read at
    /// the address: the address is neither null nor misaligned.
    pub fn valid_read(&self, align: u64) -> (r: Result<(), AddrError>)
        requires
            align > 0,
        ensures
            self.0 == 0 ==> r == Err::<(), AddrError>(AddrError::NullPointer),
            self.0 != 0 && self.0 % align != 0 ==> r == Err::<(), AddrError>(AddrError::NotAligned),
            self.0 != 0 && self.0 % align == 0 ==> r == Ok::<(), AddrError>(()),
    {
        if self.0 == 0 {
            return Err(AddrError::NullPointer);
        } else if self.0 % align != 0 {
            return Err(AddrError::NotAligned);
        }
        Ok(())
    }

    /// The address `rhs` bytes further on.
    pub fn offset(self, rhs: u64) -> (r: Self)
        requires
            self.0 + rhs <= u64::MAX,
        ensures
            r.0 == self.0 + rhs,
    {
        Self(self.0 + rhs)
    }
}

impl From<VirtAddr> for u64 {
    fn from(value: VirtAddr) -> (r: u64) {
        value.0
    }
}

impl vstd::std_specs::convert::FromSpecImpl<VirtAddr> for u64 {
    open spec fn obeys_from_spec() -> bool {
        true
    }

    open spec fn from_spec(value: VirtAddr) -> u64 {
        value.0
    }
}

/// A representation of a physical address.
#[derive(Debug, Copy, Clone, PartialEq, Eq, Structural, PartialOrd, Ord)]
pub struct PhysAddr(pub u64);

impl PhysAddr {
    /// Create a new physical address.
    pub fn new(addr: u64) -> (r: Self)
        ensures
            r.0 == addr,
    {
        Self(addr)
    }

    /// Create a null physical address that points to 0.
    pub fn null() -> (r: Self)
        ensures
            r.0 == 0,
    {
        Self(0)
    }

    /// Whether the address is 0.
    pub fn is_null(self) -> (r: bool)
        ensures
            r == (self.0 == 0),
    {
        self.0 == 0
    }

    /// Convert the address to a higher-half direct map [`VirtAddr`]: the
    /// address plus the offset at which all physical memory is mapped.
    pub fn as_hddm_virt(self, hhdm_offset: VirtAddr) -> (r: VirtAddr)
        requires
            self.0 + hhdm_offset.0 <= u64::MAX,
        ensures
            r.0 == self.0 + hhdm_offset.0,
    {
        VirtAddr::new(self.0 + hhdm_offset.0)
    }

    /// Align the address up to the given alignment.
    pub fn align_up(self, align: u64) -> (r: Self)
        requires
            is_power_of_two(align),
            align_up_spec(self.0 as int, align as int) <= u64::MAX,
        ensures
            r.0 == align_up_spec(self.0 as int, align as int),
            r.0 % align == 0,
            self.0 <= r.0 < self.0 + align,
    {
        Self(align_up(self.0, align))
    }

    /// Align the address down to the given alignment.
    pub fn align_down(self, align: u64) -> (r: Self)
        requires
            is_power_of_two(align),
        ensures
            r.0 == align_down_spec(self.0 as int, align as int),
            r.0 % align == 0,
            r.0 <= self.0 < r.0 + align,
    {
        PhysAddr(align_down(self.0, align))
    }

    /// Whether the address is a multiple of `align`.
    pub fn is_aligned(self, align: u64) -> (r: bool)
        requires
            is_power_of_two(align),
        ensures
            r == (self.0 % align == 0),
    {
        proof {
            lemma_pow2_mask_is_mod(self.0, align);
        }
        self.0 & (align - 1) == 0
    }

    /// The address `rhs` bytes further on.
    pub fn offset(self, rhs: u64) -> (r: Self)
        requires
            self.0 + rhs <= u64::MAX,
        ensures
            r.0 == self.0 + rhs,
    {
        Self(self.0 + rhs)
    }

    /// The number of bytes from `rhs` up to this address.
    pub fn distance_from(self, rhs: Self) -> (r: u64)
        requires
            rhs.0 <= self.0,
        ensures
            r == self.0 - rhs.0,
    {
        self.0 - rhs.0
    }
}

impl From<PhysAddr> for u64 {
    fn from(addr: PhysAddr) -> (r: u64) {
        addr.0
    }
}

impl vstd::std_specs::convert::FromSpecImpl<PhysAddr> for u64 {
    open spec fn obeys_from_spec() -> bool {
        true
    }

    open spec fn from_spec(addr: PhysAddr) -> u64 {
        addr.0
    }
}

} // verus!
