//! The frame buffer: a grid of pixels, row after row.

use vstd::prelude::*;

use crate::psf::PsfFont;
use color::Color;

pub mod color;
pub mod console;

verus! {

/// In-memory representation of the framebuffer's data: its pixels as words,
/// `pitch` bytes from one row to the next.
#[derive(Debug)]
pub struct FrameBufferInfo {
    pixels: Vec<u32>,
    width: usize,
    height: usize,
    pitch: usize,
}

/// Whether bit `pixel` of a row of a glyph is set, counted from the highest
/// bit; a row has eight bits.
pub open spec fn glyph_bit(glyph: u8, pixel: int) -> bool {
    0 <= pixel < 8 && glyph & (0x80u8 >> (pixel as u8)) != 0
}

/// Whether drawing glyph `glyph` of `font` at column `x` of row `y` paints
/// word `i` of `len` words, on a screen of `cols` columns with `stride`
/// words from one row to the next: the word is a pixel of the screen, it lies
/// in the box of the glyph, and its bit in the glyph is set.
pub open spec fn painted_at(
    len: int,
    stride: int,
    cols: int,
    i: int,
    x: int,
    y: int,
    glyph: int,
    font: &PsfFont,
) -> bool {
    let px = i % stride;
    let py = i / stride;
    &&& 0 <= i < len
    &&& px < cols
    &&& x <= px < x + font.glyph_width()
    &&& y <= py < y + font.glyph_height()
    &&& glyph_bit(font.glyph_row(glyph, py - y), px - x)
}

/// The words after glyph `glyph` of `font` was drawn in `color` at column
/// `x` of row `y`.
pub open spec fn drawn_pixels(
    pixels: Seq<u32>,
    stride: int,
    cols: int,
    x: int,
    y: int,
    color: u32,
    glyph: int,
    font: &PsfFont,
) -> Seq<u32> {
    Seq::new(
        pixels.len(),
        |i: int|
            if painted_at(pixels.len() as int, stride, cols, i, x, y, glyph, font) {
                color
            } else {
                pixels[i]
            },
    )
}

/// The words after every word took the value of the word `shift` places on,
/// and zero where there is none.
pub open spec fn scrolled_pixels(pixels: Seq<u32>, shift: int) -> Seq<u32> {
    Seq::new(
        pixels.len(),
        |i: int|
            if i + shift < pixels.len() {
                pixels[i + shift]
            } else {
                0
            },
    )
}

/// The words after the glyphs of the characters were drawn one after the
/// other in a row that starts at column `x + 1`.
pub open spec fn drawn_string(
    pixels: Seq<u32>,
    stride: int,
    cols: int,
    x: int,
    y: int,
    color: u32,
    chars: Seq<char>,
    font: &PsfFont,
) -> Seq<u32>
    decreases chars.len(),
{
    if chars.len() == 0 {
        pixels
    } else {
        drawn_pixels(
            drawn_string(pixels, stride, cols, x, y, color, chars.drop_last(), font),
            stride,
            cols,
            x + (chars.len() - 1) * font.glyph_width() + 1,
            y,
            color,
            (chars.last() as u32 % 256) as int,
            font,
        )
    }
}

impl FrameBufferInfo {
    /// The words of the frame buffer.
    pub closed spec fn view(&self) -> Seq<u32> {
        self.pixels@
    }

    /// The number of pixels in a row.
    pub closed spec fn cols(&self) -> int {
        self.width as int
    }

    /// The number of rows.
    pub closed spec fn rows(&self) -> int {
        self.height as int
    }

    /// The number of words from one row to the next.
    pub closed spec fn stride(&self) -> int {
        self.pitch as int / 4
    }

    /// A row holds its pixels, and the buffer holds the rows.
    pub closed spec fn wf(&self) -> bool {
        &&& self.pitch % 4 == 0
        &&& self.width <= self.pitch / 4
        &&& self.pixels@.len() == (self.pitch / 4) * self.height
    }

    /// The index of the pixel at column `x` of row `y`.
    pub open spec fn offset(&self, x: int, y: int) -> int {
        y * self.stride() + x
    }

    /// The pixel at column `x` of row `y`.
    pub open spec fn pixel(&self, x: int, y: int) -> u32 {
        self@[self.offset(x, y)]
    }

    /// The pixels of a well-formed frame buffer lie in its words, each at a
    /// place of its own.
    pub proof fn lemma_offsets(&self, x: int, y: int)
        requires
            self.wf(),
            0 <= x < self.cols(),
            0 <= y < self.rows(),
        ensures
            0 <= self.offset(x, y) < self@.len(),
            0 <= y * self.stride() <= self.offset(x, y),
            self.cols() <= self.stride(),
            self@.len() == self.stride() * self.rows(),
            self.offset(x, y) / self.stride() == y,
            self.offset(x, y) % self.stride() == x,
    {
        let s = self.stride();
        assert(y * s + x < s * self.rows() && y * s >= 0) by (nonlinear_arith)
            requires
                0 <= x < s,
                0 <= y < self.rows(),
        ;
        vstd::arithmetic::div_mod::lemma_fundamental_div_mod_converse(y * s + x, s, y, x);
    }

    /// A frame buffer of `height` rows of `width` pixels, `pitch` bytes from
    /// one row to the next, all black.
    pub fn new(width: usize, height: usize, pitch: usize) -> (r: Self)
        requires
            pitch % 4 == 0,
            width <= pitch / 4,
            (pitch / 4) * height <= usize::MAX,
        ensures
            r.wf(),
            r.cols() == width,
            r.rows() == height,
            r.stride() == pitch / 4,
            forall|i: int| 0 <= i < r@.len() ==> r@[i] == 0,
    {
        let mut pixels: Vec<u32> = Vec::new();
        pixels.resize((pitch / 4) * height, 0);
        Self { pixels, width, height, pitch }
    }

    /// The number of pixels in a row.
    pub fn width(&self) -> (r: usize)
        ensures
            r == self.cols(),
    {
        self.width
    }

    /// The number of rows.
    pub fn height(&self) -> (r: usize)
        ensures
            r == self.rows(),
    {
        self.height
    }

    /// The pixel at column `x` of row `y`, if it lies on the screen.
    pub fn pixel_at(&self, x: usize, y: usize) -> (r: Option<u32>)
        requires
            self.wf(),
        ensures
            r == (if x < self.cols() && y < self.rows() {
                Some(self.pixel(x as int, y as int))
            } else {
                None
            }),
    {
        if x < self.width && y < self.height {
            proof {
                self.lemma_offsets(x as int, y as int);
                lemma_row_of(0, self.stride(), y as int);
            }
            let len: usize = self.pixels.len();
            Some(self.pixels[y * (self.pitch / 4) + x])
        } else {
            None
        }
    }

    /// Clear the entire screen to a single color
    pub fn clear_screen(&mut self, color: Color)
        requires
            old(self).wf(),
        ensures
            final(self).wf(),
            final(self).cols() == old(self).cols(),
            final(self).rows() == old(self).rows(),
            final(self).stride() == old(self).stride(),
            final(self)@.len() == old(self)@.len(),
            forall|i: int|
                0 <= i < final(self)@.len() ==> #[trigger] final(self)@[i] == (if i % old(
                    self,
                ).stride() < old(self).cols() {
                    color.0
                } else {
                    old(self)@[i]
                }),
    {
        let stride = self.pitch / 4;
        let len = self.pixels.len();
        let mut y: usize = 0;
        while y < self.height
            invariant
                y <= self.height,
                self.wf(),
                stride == self.pitch / 4,
                len == self.pixels@.len(),
                self.width == old(self).width,
                self.height == old(self).height,
                self.pitch == old(self).pitch,
                self.pixels@.len() == old(self).pixels@.len(),
                forall|i: int|
                    0 <= i < len ==> #[trigger] self.pixels@[i] == (if i < y * stride && i % (
                    stride as int) < self.width {
                        color.0
                    } else {
                        old(self).pixels@[i]
                    }),
            decreases self.height - y,
        {
            let mut x: usize = 0;
            while x < self.width
                invariant
                    x <= self.width,
                    y < self.height,
                    self.wf(),
                    stride == self.pitch / 4,
                    len == self.pixels@.len(),
                    self.width == old(self).width,
                    self.height == old(self).height,
                    self.pitch == old(self).pitch,
                    self.pixels@.len() == old(self).pixels@.len(),
                    forall|i: int|
                        0 <= i < len ==> #[trigger] self.pixels@[i] == (if (i < y * stride && i % (
                        stride as int) < self.width) || (y * stride <= i < y * stride + x) {
                            color.0
                        } else {
                            old(self).pixels@[i]
                        }),
                decreases self.width - x,
            {
                proof {
                    self.lemma_offsets(x as int, y as int);
                    lemma_row_of(0, stride as int, y as int);
                }
                let offset = y * stride + x;
                self.pixels.set(offset, color.value());
                x += 1;
            }
            proof {
                assert forall|i: int| 0 <= i < len implies #[trigger] self.pixels@[i] == (if i < (y
                    + 1) * stride && i % (stride as int) < self.width {
                    color.0
                } else {
                    old(self).pixels@[i]
                }) by {
                    lemma_row_of(i, stride as int, y as int);
                }
            }
            y += 1;
        }
        proof {
            assert(len == stride * self.height);
            assert(self.height * stride == stride * self.height) by (nonlinear_arith);
        }
    }

    /// Draw a single pixel at the specified location
    /// If the pixel location is outside of the framebuffer, nothing occurs.
    pub fn draw_pixel(&mut self, x: usize, y: usize, color: Color)
        requires
            old(self).wf(),
        ensures
            final(self).wf(),
            final(self).cols() == old(self).cols(),
            final(self).rows() == old(self).rows(),
            final(self).stride() == old(self).stride(),
            x < old(self).cols() && y < old(self).rows() ==> final(self)@ == old(self)@.update(
                old(self).offset(x as int, y as int),
                color.0,
            ),
            !(x < old(self).cols() && y < old(self).rows()) ==> final(self)@ == old(self)@,
    {
        if x < self.width && y < self.height {
            proof {
                self.lemma_offsets(x as int, y as int);
            }
            let len = self.pixels.len();
            proof {
                lemma_row_of(0, self.stride(), y as int);
            }
            let offset = y * (self.pitch / 4) + x;
            self.pixels.set(offset, color.value());
        }
    }

    /// Whether drawing glyph `glyph` of `font` at column `x` of row `y`
    /// paints the word at `i`.
    pub open spec fn painted(&self, i: int, x: int, y: int, glyph: int, font: &PsfFont) -> bool {
        painted_at(self@.len() as int, self.stride(), self.cols(), i, x, y, glyph, font)
    }

    /// The words after glyph `glyph` of `font` was drawn in `color` at column
    /// `x` of row `y`.
    pub open spec fn drawn(&self, x: int, y: int, color: u32, glyph: int, font: &PsfFont) -> Seq<u32> {
        drawn_pixels(self@, self.stride(), self.cols(), x, y, color, glyph, font)
    }

    /// The words after the picture was scrolled up by `scroll_height` rows.
    pub open spec fn scrolled(&self, scroll_height: int) -> Seq<u32> {
        scrolled_pixels(self@, scroll_height * self.stride())
    }

    /// Draw a character on the screen at the specified location: the pixels
    /// whose bits are set in the glyph of the character's lowest byte are set
    /// to the color, as far as they lie on the screen.
    pub fn draw_char(&mut self, x: usize, y: usize, color: Color, c: char, font: &PsfFont)
        requires
            old(self).wf(),
            x + font.glyph_width() <= usize::MAX,
            y + font.glyph_height() <= usize::MAX,
        ensures
            final(self).wf(),
            final(self).cols() == old(self).cols(),
            final(self).rows() == old(self).rows(),
            final(self).stride() == old(self).stride(),
            final(self)@ == old(self).drawn(
                x as int,
                y as int,
                color.0,
                (c as u32 % 256) as int,
                font,
            ),
    {
        let b = (c as u32 % 256) as usize;
        let height = font.height() as usize;
        let width = font.width() as usize;
        let mut row: usize = 0;
        while row < height
            invariant
                row <= height,
                height == font.glyph_height(),
                width == font.glyph_width(),
                b == (c as u32 % 256),
                x + width <= usize::MAX,
                y + height <= usize::MAX,
                self.wf(),
                self.width == old(self).width,
                self.height == old(self).height,
                self.pitch == old(self).pitch,
                self.pixels@.len() == old(self).pixels@.len(),
                forall|i: int|
                    0 <= i < self.pixels@.len() ==> #[trigger] self.pixels@[i] == (if old(
                        self,
                    ).painted(i, x as int, y as int, b as int, font) && i / old(self).stride() < y
                        + row {
                        color.0
                    } else {
                        old(self).pixels@[i]
                    }),
            decreases height - row,
        {
            let glyph = font.read_glyph_row(b, row);
            let mut pixel: usize = 0;
            while pixel < width
                invariant
                    pixel <= width,
                    row < height,
                    height == font.glyph_height(),
                    width == font.glyph_width(),
                    glyph == font.glyph_row(b as int, row as int),
                    x + width <= usize::MAX,
                    y + height <= usize::MAX,
                    self.wf(),
                    self.width == old(self).width,
                    self.height == old(self).height,
                    self.pitch == old(self).pitch,
                    self.pixels@.len() == old(self).pixels@.len(),
                    forall|i: int|
                        0 <= i < self.pixels@.len() ==> #[trigger] self.pixels@[i] == (if old(
                            self,
                        ).painted(i, x as int, y as int, b as int, font) && (i / old(self).stride()
                            < y + row || (i / old(self).stride() == y + row && i % old(
                            self,
                        ).stride() < x + pixel)) {
                            color.0
                        } else {
                            old(self).pixels@[i]
                        }),
                decreases width - pixel,
            {
                let set = pixel < 8 && glyph & (0x80u8 >> (pixel as u8)) != 0;
                let ghost before = self.pixels@;
                if set {
                    self.draw_pixel(x + pixel, y + row, color);
                }
                proof {
                    let px = x + pixel;
                    let py = y + row;
                    assert(old(self)@.len() == old(self).stride() * old(self).rows());
                    if px < self.width && py < self.height {
                        old(self).lemma_offsets(px as int, py as int);
                    }
                    assert forall|i: int| 0 <= i < self.pixels@.len() implies #[trigger] self.pixels@[i]
                        == (if old(self).painted(i, x as int, y as int, b as int, font) && (i / old(
                        self,
                    ).stride() < y + row || (i / old(self).stride() == y + row && i % old(
                        self,
                    ).stride() < x + pixel + 1)) {
                        color.0
                    } else {
                        old(self).pixels@[i]
                    }) by {
                        let s = old(self).stride();
                        if s > 0 {
                            vstd::arithmetic::div_mod::lemma_fundamental_div_mod(i, s);
                            assert(s * (i / s) == (i / s) * s) by (nonlinear_arith);
                            let rows = old(self).rows();
                            assert(i / s < rows) by (nonlinear_arith)
                                requires
                                    i == s * (i / s) + i % s,
                                    0 <= i % s,
                                    i < s * rows,
                                    s > 0,
                            ;
                        }
                        if i / s == py && i % s == px && s > 0 {
                            assert(i == py * s + px);
                            assert(px - x == pixel && py - y == row);
                            assert(old(self).painted(i, x as int, y as int, b as int, font) == (set
                                && px < old(self).cols()));
                        }
                    }
                }
                pixel += 1;
            }
            proof {
                assert forall|i: int| 0 <= i < self.pixels@.len() implies #[trigger] self.pixels@[i]
                    == (if old(self).painted(i, x as int, y as int, b as int, font) && i / old(
                    self,
                ).stride() < y + row + 1 {
                    color.0
                } else {
                    old(self).pixels@[i]
                }) by {}
            }
            row += 1;
        }
        proof {
            assert(self@ =~= old(self).drawn(x as int, y as int, color.0, b as int, font));
        }
    }

    /// Draw a string of text onto the screen at the specified location
    pub fn draw_string(&mut self, x: usize, y: usize, color: Color, s: &str, font: &PsfFont)
        requires
            old(self).wf(),
            s@.len() < usize::MAX,
            x + (s@.len() + 1) * font.glyph_width() + 1 <= usize::MAX,
            y + font.glyph_height() <= usize::MAX,
        ensures
            final(self).wf(),
            final(self).cols() == old(self).cols(),
            final(self).rows() == old(self).rows(),
            final(self).stride() == old(self).stride(),
            final(self)@ == drawn_string(
                old(self)@,
                old(self).stride(),
                old(self).cols(),
                x as int,
                y as int,
                color.0,
                s@,
                font,
            ),
    {
        broadcast use vstd::string::axiom_spec_iter;

        let width = font.width() as usize;
        let mut i: usize = 0;
        for c in it: s.chars()
            invariant
                it.seq() == s@,
                i == it.index(),
                s@.len() < usize::MAX,
                width == font.glyph_width(),
                x + (s@.len() + 1) * font.glyph_width() + 1 <= usize::MAX,
                y + font.glyph_height() <= usize::MAX,
                self.wf(),
                self.cols() == old(self).cols(),
                self.rows() == old(self).rows(),
                self.stride() == old(self).stride(),
                self@ == drawn_string(
                    old(self)@,
                    old(self).stride(),
                    old(self).cols(),
                    x as int,
                    y as int,
                    color.0,
                    it.seq().take(it.index() as int),
                    font,
                ),
        {
            proof {
                let k = it.index() as int;
                assert(it.seq().take(k + 1).drop_last() =~= it.seq().take(k));
                assert(it.seq().take(k + 1).last() == c);
                assert(i * width + width <= (s@.len() + 1) * width && i * width >= 0)
                    by (nonlinear_arith)
                    requires
                        0 <= i < s@.len(),
                        width >= 0,
                ;
            }
            self.draw_char(x + i * width + 1, y, color, c, font);
            i += 1;
        }
        proof {
            assert(s@.take(s@.len() as int) =~= s@);
        }
    }

    /// Scrolls the picture up by `scroll_height` rows: every row takes the
    /// place of the row that many rows above it, and the rows that come free
    /// at the bottom are cleared to zero.
    pub fn scroll(&mut self, scroll_height: usize)
        requires
            old(self).wf(),
            scroll_height < old(self).rows(),
        ensures
            final(self).wf(),
            final(self).cols() == old(self).cols(),
            final(self).rows() == old(self).rows(),
            final(self).stride() == old(self).stride(),
            final(self)@.len() == old(self)@.len(),
            final(self)@ == old(self).scrolled(scroll_height as int),
    {
        let stride = self.pitch / 4;
        let len = self.pixels.len();
        assert(scroll_height * stride <= len) by (nonlinear_arith)
            requires
                scroll_height < self.height,
                len == stride * self.height,
                stride >= 0,
        ;
        let shift = scroll_height * stride;
        let size = len - shift;
        let mut i: usize = 0;
        while i < size
            invariant
                i <= size,
                size == len - shift,
                len == self.pixels@.len(),
                len == old(self).pixels@.len(),
                self.width == old(self).width,
                self.height == old(self).height,
                self.pitch == old(self).pitch,
                forall|j: int| 0 <= j < i ==> #[trigger] self.pixels@[j] == old(self).pixels@[j + shift],
                forall|j: int| i <= j < len ==> #[trigger] self.pixels@[j] == old(self).pixels@[j],
            decreases size - i,
        {
            let value = self.pixels[i + shift];
            self.pixels.set(i, value);
            i += 1;
        }
        while i < len
            invariant
                size <= i <= len,
                size == len - shift,
                len == self.pixels@.len(),
                len == old(self).pixels@.len(),
                self.width == old(self).width,
                self.height == old(self).height,
                self.pitch == old(self).pitch,
                forall|j: int| 0 <= j < size ==> #[trigger] self.pixels@[j] == old(self).pixels@[j + shift],
                forall|j: int| size <= j < i ==> #[trigger] self.pixels@[j] == 0,
            decreases len - i,
        {
            self.pixels.set(i, 0);
            i += 1;
        }
        proof {
            assert(self@ =~= old(self).scrolled(scroll_height as int));
        }
    }
}

/// An index of row `y` lies between the first index of that row and the
/// first index of the next.
pub proof fn lemma_row_of(i: int, stride: int, y: int)
    requires
        stride >= 0,
        y >= 0,
    ensures
        (y + 1) * stride == y * stride + stride,
        y * stride >= 0,
        y * stride <= i < y * stride + stride && stride > 0 ==> i % stride == i - y * stride,
{
    assert((y + 1) * stride == y * stride + stride) by (nonlinear_arith);
    assert(y * stride >= 0) by (nonlinear_arith)
        requires
            stride >= 0,
            y >= 0,
    ;
    if y * stride <= i < y * stride + stride && stride > 0 {
        vstd::arithmetic::div_mod::lemma_fundamental_div_mod_converse(
            i,
            stride,
            y,
            i - y * stride,
        );
    }
}

} // verus!
