//! Bitmap fonts in the PSF2 format: a header of eight little-endian words,
//! then the glyphs, each a run of rows of one byte.

use byteorder::{ByteOrder, LittleEndian};
use vstd::prelude::*;

use crate::bytes::le_u32;

verus! {

/// The magic number of the format.
pub const PSF_MAGIC: u32 = 0x864A_B572;

/// Reads the four bytes from `at` on as a word with
/// `LittleEndian::read_u32` of the crate `byteorder`, which takes the first
/// four bytes of the slice as the word's bytes, lowest first, and panics on a
/// shorter slice.
#[verifier::external_body]
fn read_u32(bytes: &Vec<u8>, at: usize) -> (r: u32)
    requires
        at + 4 <= bytes@.len(),
    ensures
        r == le_u32(bytes@, at as int),
{
    LittleEndian::read_u32(&bytes[at..at + 4])
}

/// A font: the fields of its header and its bytes.
#[derive(Debug)]
pub struct PsfFont {
    magic: u32,
    version: u32,
    header_size: u32,
    flags: u32,
    num_glyphs: u32,
    bytes_per_glyph: u32,
    height: u32,
    width: u32,
    data: Vec<u8>,
}

impl PsfFont {
    /// The bytes of the font file.
    pub closed spec fn bytes(&self) -> Seq<u8> {
        self.data@
    }

    /// The size of the header, as the header gives it.
    pub closed spec fn header_len(&self) -> int {
        self.header_size as int
    }

    /// The number of bytes of one glyph, as the header gives it.
    pub closed spec fn glyph_len(&self) -> int {
        self.bytes_per_glyph as int
    }

    /// The height of a glyph in pixels, as the header gives it.
    pub closed spec fn glyph_height(&self) -> int {
        self.height as int
    }

    /// The width of a glyph in pixels, as the header gives it.
    pub closed spec fn glyph_width(&self) -> int {
        self.width as int
    }

    /// The byte of row `row` of glyph `offset`, and zero past the end of the
    /// font.
    pub open spec fn glyph_row(&self, offset: int, row: int) -> u8 {
        let index = self.header_len() + offset * self.glyph_len() + row;
        if index >= self.bytes().len() {
            0
        } else {
            self.bytes()[index]
        }
    }

    /// The font that the bytes of a font file hold. The header fields are
    /// read from the bytes 4 to 31; the magic number is taken for granted.
    pub fn from_bytes(font: Vec<u8>) -> (r: Self)
        requires
            font@.len() >= 32,
        ensures
            r.bytes() == font@,
            r.header_len() == le_u32(font@, 8),
            r.glyph_len() == le_u32(font@, 20),
            r.glyph_height() == le_u32(font@, 24),
            r.glyph_width() == le_u32(font@, 28),
    {
        Self {
            magic: PSF_MAGIC,
            version: read_u32(&font, 4),
            header_size: read_u32(&font, 8),
            flags: read_u32(&font, 12),
            num_glyphs: read_u32(&font, 16),
            bytes_per_glyph: read_u32(&font, 20),
            height: read_u32(&font, 24),
            width: read_u32(&font, 28),
            data: font,
        }
    }

    /// The byte of row `row` of glyph `offset`, and zero past the end of the
    /// font.
    pub fn read_glyph_row(&self, offset: usize, row: usize) -> (r: u8)
        ensures
            r == self.glyph_row(offset as int, row as int),
    {
        let len = self.data.len() as u64;
        let offset = offset as u64;
        let row = row as u64;
        let per_glyph = self.bytes_per_glyph as u64;
        if row >= len {
            assert(offset * per_glyph >= 0) by (nonlinear_arith)
                requires
                    offset >= 0,
                    per_glyph >= 0,
            ;
            return 0x00;
        }
        if per_glyph != 0 && offset > len / per_glyph {
            assert(offset * per_glyph >= len) by (nonlinear_arith)
                requires
                    offset > len / per_glyph,
                    per_glyph > 0,
                    len >= 0,
            ;
            return 0x00;
        }
        assert(offset * per_glyph <= 0x1_0000_0000 * 0xffff_ffff_ffff_ffff) by (nonlinear_arith)
            requires
                offset <= 0xffff_ffff_ffff_ffff,
                per_glyph <= 0xffff_ffff,
                offset >= 0,
        ;
        assert(per_glyph != 0 ==> offset * per_glyph <= len + per_glyph) by (nonlinear_arith)
            requires
                per_glyph != 0 ==> offset <= len / per_glyph,
                per_glyph >= 0,
                len >= 0,
        ;
        assert(per_glyph == 0 ==> offset * per_glyph == 0) by (nonlinear_arith);
        let start = self.header_size as u128 + (offset as u128) * (per_glyph as u128);
        let index = start + row as u128;
        if index >= len as u128 {
            return 0x00;
        }
        self.data[index as usize]
    }

    /// The height of a glyph in pixels.
    pub fn height(&self) -> (r: u32)
        ensures
            r == self.glyph_height(),
    {
        self.height
    }

    /// The width of a glyph in pixels.
    pub fn width(&self) -> (r: u32)
        ensures
            r == self.glyph_width(),
    {
        self.width
    }
}

} // verus!
