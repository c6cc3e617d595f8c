//! Reading little-endian numbers out of bytes.

use vstd::prelude::*;

verus! {

/// The number that the two bytes from `at` on hold, lowest byte first.
pub open spec fn le_u16(bytes: Seq<u8>, at: int) -> int {
    bytes[at] + 0x100 * bytes[at + 1]
}

/// The number that the four bytes from `at` on hold, lowest byte first.
pub open spec fn le_u32(bytes: Seq<u8>, at: int) -> int {
    bytes[at] + 0x100 * bytes[at + 1] + 0x1_0000 * bytes[at + 2] + 0x100_0000 * bytes[at + 3]
}

/// The number that the eight bytes from `at` on hold, lowest byte first.
pub open spec fn le_u64(bytes: Seq<u8>, at: int) -> int {
    le_u32(bytes, at) + 0x1_0000_0000 * le_u32(bytes, at + 4)
}

/// The sum of the bytes.
pub open spec fn byte_sum(bytes: Seq<u8>) -> int
    decreases bytes.len(),
{
    if bytes.len() == 0 {
        0
    } else {
        byte_sum(bytes.drop_last()) + bytes.last()
    }
}

/// The bytes add up to zero in their lowest eight bits.
pub open spec fn sums_to_zero(bytes: Seq<u8>) -> bool {
    byte_sum(bytes) % 256 == 0
}

/// Reads the two bytes from `at` on as a number, lowest byte first.
pub fn read_u16_at(bytes: &Vec<u8>, at: usize) -> (r: u16)
    requires
        at + 2 <= bytes@.len(),
    ensures
        r == le_u16(bytes@, at as int),
{
    let len: usize = bytes.len();
    (bytes[at] as u16) + 0x100 * (bytes[at + 1] as u16)
}

/// Reads the four bytes from `at` on as a number, lowest byte first.
pub fn read_u32_at(bytes: &Vec<u8>, at: usize) -> (r: u32)
    requires
        at + 4 <= bytes@.len(),
    ensures
        r == le_u32(bytes@, at as int),
{
    let len: usize = bytes.len();
    (bytes[at] as u32) + 0x100 * (bytes[at + 1] as u32) + 0x1_0000 * (bytes[at + 2] as u32)
        + 0x100_0000 * (bytes[at + 3] as u32)
}

/// Reads the eight bytes from `at` on as a number, lowest byte first.
pub fn read_u64_at(bytes: &Vec<u8>, at: usize) -> (r: u64)
    requires
        at + 8 <= bytes@.len(),
    ensures
        r == le_u64(bytes@, at as int),
{
    let len: usize = bytes.len();
    (read_u32_at(bytes, at) as u64) + 0x1_0000_0000 * (read_u32_at(bytes, at + 4) as u64)
}

/// Whether the first `length` bytes add up to zero in their lowest eight
/// bits.
pub fn checksum_valid(bytes: &Vec<u8>, length: usize) -> (r: bool)
    requires
        length <= bytes@.len(),
    ensures
        r == sums_to_zero(bytes@.take(length as int)),
{
    let mut sum: u8 = 0;
    let mut i: usize = 0;
    while i < length
        invariant
            i <= length <= bytes@.len(),
            sum == byte_sum(bytes@.take(i as int)) % 256,
        decreases length - i,
    {
        proof {
            assert(bytes@.take(i + 1).drop_last() =~= bytes@.take(i as int));
            assert(bytes@.take(i + 1).last() == bytes@[i as int]);
            let s = byte_sum(bytes@.take(i as int));
            let b = bytes@[i as int] as int;
            assert((s % 256 + b) % 256 == (s + b) % 256);
        }
        sum = ((sum as u16 + bytes[i] as u16) % 256) as u8;
        i += 1;
    }
    proof {
        assert(bytes@.take(length as int) == bytes@.take(i as int));
    }
    sum == 0
}

} // verus!
