//! Colors of the frame buffer.

use vstd::prelude::*;

verus! {

/// A color: alpha in bits 24 to 31, red in bits 16 to 23, green in bits 8 to
/// 15 and blue in bits 0 to 7.
#[derive(Debug, Copy, Clone, PartialEq, Eq, Structural)]
pub struct Color(pub u32);

/// The word of opaque black.
pub const BLACK: u32 = 0xFF00_0000;

/// The word of opaque blue.
pub const BLUE: u32 = 0xFF00_00FF;

/// The word of opaque cyan.
pub const CYAN: u32 = 0xFF00_FFFF;

/// The word of opaque green.
pub const GREEN: u32 = 0xFF00_FF00;

/// The word of opaque magenta.
pub const MAGENTA: u32 = 0xFFFF_00FF;

/// The word of opaque red.
pub const RED: u32 = 0xFFFF_0000;

/// The word of opaque yellow.
pub const YELLOW: u32 = 0xFFFF_FF00;

/// The word of opaque white.
pub const WHITE: u32 = 0xFFFF_FFFF;

impl Color {
    /// The color with the given parts and an alpha of zero.
    pub fn new(red: u8, green: u8, blue: u8) -> (r: Self)
        ensures
            r.0 == red * 0x1_0000 + green * 0x100 + blue,
    {
        assert(((red as u32) << 16 | (green as u32) << 8 | (blue as u32)) == (red as u32) * 0x1_0000
            + (green as u32) * 0x100 + (blue as u32)) by (bit_vector);
        Self((red as u32) << 16 | (green as u32) << 8 | (blue as u32))
    }

    /// The color as one word.
    pub fn value(self) -> (r: u32)
        ensures
            r == self.0,
    {
        self.0
    }
}

} // verus!
