//! The text console on the frame buffer: a cursor that moves over a grid of
//! glyphs, and escape sequences that set the color.

use vstd::prelude::*;

use super::color::{Color, BLACK, BLUE, CYAN, GREEN, MAGENTA, RED, WHITE, YELLOW};
use super::{drawn_pixels, scrolled_pixels, FrameBufferInfo};
use crate::psf::PsfFont;

verus! {

/// What the console remembers of an escape sequence: the digits read so far.
#[derive(Debug, Clone, Copy, PartialEq, Eq, Structural)]
pub struct ControlState {
    /// The first digit.
    pub first: char,
    /// The second digit.
    pub second: char,
    /// The number of digits read.
    pub color_index: u8,
}

/// What the console is, but for its font.
#[derive(Debug, Clone, Copy, PartialEq, Eq, Structural)]
pub struct ConsoleState {
    /// The column of the cursor, in glyphs.
    pub cursor_x: usize,
    /// The row of the cursor, in glyphs.
    pub cursor_y: usize,
    /// The color that glyphs are drawn in.
    pub color: Color,
    /// An escape sequence is being read.
    pub control_mode: bool,
    /// The digits of the escape sequence.
    pub control_state: ControlState,
}

/// The color that the two digits of an escape sequence name, if they name
/// one: 30 to 37, and 39 for the default.
pub open spec fn color_of_digits(first: char, second: char) -> Option<u32> {
    if first != '3' {
        None
    } else if second == '0' {
        Some(BLACK)
    } else if second == '1' {
        Some(RED)
    } else if second == '2' {
        Some(GREEN)
    } else if second == '3' {
        Some(YELLOW)
    } else if second == '4' {
        Some(BLUE)
    } else if second == '5' {
        Some(MAGENTA)
    } else if second == '6' {
        Some(CYAN)
    } else if second == '7' || second == '9' {
        Some(WHITE)
    } else {
        None
    }
}

impl ConsoleState {
    /// The state with the color that the digits read so far ask for: two
    /// digits name a color, the single digit 0 resets the color to white, and
    /// anything else changes nothing.
    pub open spec fn with_digits_applied(self) -> ConsoleState {
        if self.control_state.color_index == 2 {
            match color_of_digits(self.control_state.first, self.control_state.second) {
                Some(color) => ConsoleState { color: Color(color), ..self },
                None => self,
            }
        } else if self.control_state.color_index == 1 && self.control_state.first == '0' {
            ConsoleState { color: Color(WHITE), ..self }
        } else {
            self
        }
    }

    /// The state with the count of digits set to zero.
    pub open spec fn with_index_cleared(self) -> ConsoleState {
        ConsoleState {
            control_state: ControlState { color_index: 0, ..self.control_state },
            ..self
        }
    }

    /// The state after the cursor went to the start of the next row; the
    /// cursor stays in the last row when the picture scrolls.
    pub open spec fn after_newline(self, scroll_pos: int) -> ConsoleState {
        ConsoleState {
            cursor_x: 0,
            cursor_y: if self.cursor_y + 1 == scroll_pos {
                self.cursor_y
            } else {
                (self.cursor_y + 1) as usize
            },
            ..self
        }
    }

    /// Whether going to the next row scrolls the picture.
    pub open spec fn newline_scrolls(self, scroll_pos: int) -> bool {
        self.cursor_y + 1 == scroll_pos
    }

    /// Whether the character is drawn: the console reads no escape sequence,
    /// and the character is neither a newline nor an escape.
    pub open spec fn draws(self, c: char) -> bool {
        !self.control_mode && c != '\n' && c != '\x1b'
    }

    /// Whether the character moves the cursor to the next row: it is a
    /// newline, or it is drawn in the last column.
    pub open spec fn breaks_line(self, c: char, wrap_pos: int) -> bool {
        !self.control_mode && (c == '\n' || (c != '\x1b' && self.cursor_x + 1 >= wrap_pos))
    }

    /// The state after the character `c` was written, on a screen of
    /// `wrap_pos` columns and `scroll_pos` rows of glyphs.
    pub open spec fn step(self, c: char, wrap_pos: int, scroll_pos: int) -> ConsoleState {
        if self.control_mode {
            if c == '[' {
                self.with_index_cleared()
            } else if '0' <= c <= '9' {
                if self.control_state.color_index > 1 {
                    ConsoleState { control_mode: false, ..self }
                } else if self.control_state.color_index == 0 {
                    ConsoleState {
                        control_state: ControlState {
                            first: c,
                            color_index: 1,
                            ..self.control_state
                        },
                        ..self
                    }
                } else {
                    ConsoleState {
                        control_state: ControlState {
                            second: c,
                            color_index: 2,
                            ..self.control_state
                        },
                        ..self
                    }
                }
            } else if c == ';' {
                self.with_digits_applied().with_index_cleared()
            } else if c == 'm' {
                ConsoleState {
                    control_mode: false,
                    ..self.with_digits_applied().with_index_cleared()
                }
            } else {
                ConsoleState { control_mode: false, ..self.with_index_cleared() }
            }
        } else if c == '\n' {
            self.after_newline(scroll_pos)
        } else if c == '\x1b' {
            ConsoleState { control_mode: true, ..self }
        } else if self.cursor_x + 1 >= wrap_pos {
            self.after_newline(scroll_pos)
        } else {
            ConsoleState { cursor_x: (self.cursor_x + 1) as usize, ..self }
        }
    }
}

/// The words of a frame buffer of `cols` columns and `rows` rows after the
/// character `c` was written: the glyph is drawn if the character is, and the
/// picture is scrolled if the cursor leaves the last row.
pub open spec fn written_pixels(
    state: ConsoleState,
    font: &PsfFont,
    pixels: Seq<u32>,
    cols: int,
    rows: int,
    stride: int,
    c: char,
) -> Seq<u32> {
    let wrap = cols / font.glyph_width();
    let scroll = rows / font.glyph_height();
    let drawn = if state.draws(c) {
        drawn_pixels(
            pixels,
            stride,
            cols,
            state.cursor_x * font.glyph_width() + 1,
            state.cursor_y * font.glyph_height() + 1,
            state.color.0,
            (c as u32 % 256) as int,
            font,
        )
    } else {
        pixels
    };
    if state.breaks_line(c, wrap) && state.newline_scrolls(scroll) {
        scrolled_pixels(drawn, font.glyph_height() * stride)
    } else {
        drawn
    }
}

/// The state of the console and the words of the frame buffer after the
/// characters were written one after the other.
pub open spec fn written_all(
    state: ConsoleState,
    font: &PsfFont,
    pixels: Seq<u32>,
    cols: int,
    rows: int,
    stride: int,
    chars: Seq<char>,
) -> (ConsoleState, Seq<u32>)
    decreases chars.len(),
{
    if chars.len() == 0 {
        (state, pixels)
    } else {
        let before = written_all(state, font, pixels, cols, rows, stride, chars.drop_last());
        (
            before.0.step(chars.last(), cols / font.glyph_width(), rows / font.glyph_height()),
            written_pixels(before.0, font, before.1, cols, rows, stride, chars.last()),
        )
    }
}

/// The console: a font and the state of the cursor.
#[derive(Debug)]
pub struct Console {
    font: PsfFont,
    state: ConsoleState,
}

impl Console {
    /// The state of the cursor and of the escape sequence.
    pub closed spec fn view(&self) -> ConsoleState {
        self.state
    }

    /// The font.
    pub closed spec fn font(&self) -> &PsfFont {
        &self.font
    }

    /// The number of columns of glyphs on the screen.
    pub open spec fn wrap_pos(&self, fb: &FrameBufferInfo) -> int {
        fb.cols() / self.font().glyph_width()
    }

    /// The number of rows of glyphs on the screen.
    pub open spec fn scroll_pos(&self, fb: &FrameBufferInfo) -> int {
        fb.rows() / self.font().glyph_height()
    }

    /// The glyphs have a size, the screen holds a glyph and is higher than
    /// one, its sides are below the largest machine word, and the cursor is on
    /// the screen.
    pub open spec fn wf(&self, fb: &FrameBufferInfo) -> bool {
        &&& fb.wf()
        &&& 0 < self.font().glyph_width() <= fb.cols() < usize::MAX
        &&& 0 < self.font().glyph_height() < fb.rows() < usize::MAX
        &&& self@.cursor_x < self.wrap_pos(fb)
        &&& self@.cursor_y < self.scroll_pos(fb)
        &&& self@.control_state.color_index <= 2
    }

    /// A console with the cursor in the upper left corner that draws in
    /// white.
    pub fn new(font: PsfFont) -> (r: Self)
        ensures
            r.font() == &font,
            r@ == (ConsoleState {
                cursor_x: 0,
                cursor_y: 0,
                color: Color(WHITE),
                control_mode: false,
                control_state: ControlState { first: '\0', second: '\0', color_index: 0 },
            }),
    {
        Self {
            font,
            state: ConsoleState {
                cursor_x: 0,
                cursor_y: 0,
                color: Color(WHITE),
                control_mode: false,
                control_state: ControlState { first: '\0', second: '\0', color_index: 0 },
            },
        }
    }

    /// The words of the frame buffer after the character `c` was written.
    pub open spec fn output(&self, fb: &FrameBufferInfo, c: char) -> Seq<u32> {
        written_pixels(self@, self.font(), fb@, fb.cols(), fb.rows(), fb.stride(), c)
    }

    /// Writes one character: in an escape sequence the character is taken as
    /// part of it; otherwise a newline moves the cursor to the next row, an
    /// escape starts a sequence, and any other character is drawn at the
    /// cursor, which moves on.
    pub fn write_char(&mut self, fb: &mut FrameBufferInfo, c: char)
        requires
            old(self).wf(old(fb)),
        ensures
            final(self).wf(final(fb)),
            final(self).font() == old(self).font(),
            final(fb).cols() == old(fb).cols(),
            final(fb).rows() == old(fb).rows(),
            final(fb).stride() == old(fb).stride(),
            final(self)@ == old(self)@.step(c, old(self).wrap_pos(old(fb)), old(self).scroll_pos(old(fb))),
            final(fb)@ == old(self).output(old(fb), c),
    {
        if self.state.control_mode {
            if c == '[' {
                self.state.control_state.color_index = 0;
            } else if '0' <= c && c <= '9' {
                if self.state.control_state.color_index > 1 {
                    self.state.control_mode = false;
                    return ;
                }
                if self.state.control_state.color_index == 0 {
                    self.state.control_state.first = c;
                } else {
                    self.state.control_state.second = c;
                }
                self.state.control_state.color_index += 1;
            } else if c == ';' {
                if self.state.control_state.color_index == 2 {
                    self.set_color();
                }
                if self.state.control_state.color_index == 1 {
                    self.graphics_command();
                }
                self.state.control_state.color_index = 0;
            } else if c == 'm' {
                if self.state.control_state.color_index == 2 {
                    self.set_color();
                }
                if self.state.control_state.color_index == 1 {
                    self.graphics_command();
                }
                self.state.control_mode = false;
                self.state.control_state.color_index = 0;
            } else {
                self.state.control_mode = false;
                self.state.control_state.color_index = 0;
            }
        } else {
            if c == '\n' {
                self.newline(fb);
            } else if c == '\x1b' {
                self.state.control_mode = true;
            } else {
                let width = self.font.width() as usize;
                let height = self.font.height() as usize;
                proof {
                    lemma_cell_on_screen(self.state.cursor_x as int, width as int, fb.cols());
                    lemma_cell_on_screen(self.state.cursor_y as int, height as int, fb.rows());
                }
                fb.draw_char(
                    self.state.cursor_x * width + 1,
                    self.state.cursor_y * height + 1,
                    self.state.color,
                    c,
                    &self.font,
                );
                self.inc_col(fb);
            }
        }
    }

    /// Writes the characters of the string one after the other.
    pub fn write_str(&mut self, fb: &mut FrameBufferInfo, s: &str)
        requires
            old(self).wf(old(fb)),
        ensures
            final(self).wf(final(fb)),
            final(self).font() == old(self).font(),
            final(fb).cols() == old(fb).cols(),
            final(fb).rows() == old(fb).rows(),
            final(fb).stride() == old(fb).stride(),
            (final(self)@, final(fb)@) == written_all(
                old(self)@,
                old(self).font(),
                old(fb)@,
                old(fb).cols(),
                old(fb).rows(),
                old(fb).stride(),
                s@,
            ),
    {
        broadcast use vstd::string::axiom_spec_iter;

        for c in it: s.chars()
            invariant
                it.seq() == s@,
                self.wf(fb),
                self.font() == old(self).font(),
                fb.cols() == old(fb).cols(),
                fb.rows() == old(fb).rows(),
                fb.stride() == old(fb).stride(),
                (self@, fb@) == written_all(
                    old(self)@,
                    old(self).font(),
                    old(fb)@,
                    old(fb).cols(),
                    old(fb).rows(),
                    old(fb).stride(),
                    it.seq().take(it.index() as int),
                ),
        {
            proof {
                let i = it.index() as int;
                assert(it.seq().take(i + 1).drop_last() =~= it.seq().take(i));
                assert(it.seq().take(i + 1).last() == c);
            }
            self.write_char(fb, c);
        }
        proof {
            assert(s@.take(s@.len() as int) =~= s@);
        }
    }

    /// The column and the row of the cursor, in glyphs.
    pub fn cursor(&self) -> (r: (usize, usize))
        ensures
            r == (self@.cursor_x, self@.cursor_y),
    {
        (self.state.cursor_x, self.state.cursor_y)
    }

    /// The color that glyphs are drawn in.
    pub fn color(&self) -> (r: Color)
        ensures
            r == self@.color,
    {
        self.state.color
    }

    /// The number of columns of glyphs on the screen.
    pub fn get_wrap_pos(&self, fb: &FrameBufferInfo) -> (r: usize)
        requires
            self.font().glyph_width() > 0,
        ensures
            r == self.wrap_pos(fb),
    {
        fb.width() / (self.font.width() as usize)
    }

    /// The number of rows of glyphs on the screen.
    pub fn get_scroll_pos(&self, fb: &FrameBufferInfo) -> (r: usize)
        requires
            self.font().glyph_height() > 0,
        ensures
            r == self.scroll_pos(fb),
    {
        fb.height() / (self.font.height() as usize)
    }

    /// Moves the cursor one column on, and to the next row past the last
    /// column.
    fn inc_col(&mut self, fb: &mut FrameBufferInfo)
        requires
            old(self).wf(old(fb)),
        ensures
            final(self).wf(final(fb)),
            final(self).font() == old(self).font(),
            final(fb).cols() == old(fb).cols(),
            final(fb).rows() == old(fb).rows(),
            final(fb).stride() == old(fb).stride(),
            final(self)@ == (if old(self)@.cursor_x + 1 >= old(self).wrap_pos(old(fb)) {
                old(self)@.after_newline(old(self).scroll_pos(old(fb)))
            } else {
                ConsoleState { cursor_x: (old(self)@.cursor_x + 1) as usize, ..old(self)@ }
            }),
            final(fb)@ == (if old(self)@.cursor_x + 1 >= old(self).wrap_pos(old(fb)) && old(
                self,
            )@.newline_scrolls(old(self).scroll_pos(old(fb))) {
                old(fb).scrolled(old(self).font().glyph_height())
            } else {
                old(fb)@
            }),
    {
        self.state.cursor_x += 1;
        if self.state.cursor_x >= self.get_wrap_pos(fb) {
            self.state.cursor_x = 0;
            self.inc_row(fb);
        }
    }

    /// Moves the cursor one row on, and scrolls the picture past the last
    /// row. The column of the cursor must be on the screen.
    fn inc_row(&mut self, fb: &mut FrameBufferInfo)
        requires
            old(self).wf(old(fb)),
        ensures
            final(self).wf(final(fb)),
            final(self).font() == old(self).font(),
            final(fb).cols() == old(fb).cols(),
            final(fb).rows() == old(fb).rows(),
            final(fb).stride() == old(fb).stride(),
            final(self)@ == (ConsoleState {
                cursor_y: if old(self)@.newline_scrolls(old(self).scroll_pos(old(fb))) {
                    old(self)@.cursor_y
                } else {
                    (old(self)@.cursor_y + 1) as usize
                },
                ..old(self)@
            }),
            final(fb)@ == (if old(self)@.newline_scrolls(old(self).scroll_pos(old(fb))) {
                old(fb).scrolled(old(self).font().glyph_height())
            } else {
                old(fb)@
            }),
    {
        self.state.cursor_y += 1;
        if self.state.cursor_y == self.get_scroll_pos(fb) {
            self.scroll(fb);
        }
    }

    /// Moves the cursor one row up and the picture one row of glyphs up.
    fn scroll(&mut self, fb: &mut FrameBufferInfo)
        requires
            old(fb).wf(),
            old(self)@.cursor_y > 0,
            0 < old(self).font().glyph_height() < old(fb).rows(),
        ensures
            final(self).font() == old(self).font(),
            final(fb).wf(),
            final(fb).cols() == old(fb).cols(),
            final(fb).rows() == old(fb).rows(),
            final(fb).stride() == old(fb).stride(),
            final(self)@ == (ConsoleState {
                cursor_y: (old(self)@.cursor_y - 1) as usize,
                ..old(self)@
            }),
            final(fb)@ == old(fb).scrolled(old(self).font().glyph_height()),
    {
        self.state.cursor_y -= 1;
        fb.scroll(self.font.height() as usize);
    }

    /// Moves the cursor to the start of the next row.
    fn newline(&mut self, fb: &mut FrameBufferInfo)
        requires
            old(self).wf(old(fb)),
        ensures
            final(self).wf(final(fb)),
            final(self).font() == old(self).font(),
            final(fb).cols() == old(fb).cols(),
            final(fb).rows() == old(fb).rows(),
            final(fb).stride() == old(fb).stride(),
            final(self)@ == old(self)@.after_newline(old(self).scroll_pos(old(fb))),
            final(fb)@ == (if old(self)@.newline_scrolls(old(self).scroll_pos(old(fb))) {
                old(fb).scrolled(old(self).font().glyph_height())
            } else {
                old(fb)@
            }),
    {
        self.state.cursor_x = 0;
        self.inc_row(fb);
    }

    /// Sets the color that the two digits of the escape sequence name; digits
    /// that name none change nothing.
    fn set_color(&mut self)
        requires
            old(self)@.control_state.color_index == 2,
        ensures
            final(self).font() == old(self).font(),
            final(self)@ == old(self)@.with_digits_applied(),
    {
        let second = self.state.control_state.second;
        if self.state.control_state.first == '3' {
            if second == '0' {
                self.state.color = Color(BLACK);
            } else if second == '1' {
                self.state.color = Color(RED);
            } else if second == '2' {
                self.state.color = Color(GREEN);
            } else if second == '3' {
                self.state.color = Color(YELLOW);
            } else if second == '4' {
                self.state.color = Color(BLUE);
            } else if second == '5' {
                self.state.color = Color(MAGENTA);
            } else if second == '6' {
                self.state.color = Color(CYAN);
            } else if second == '7' || second == '9' {
                self.state.color = Color(WHITE);
            }
        }
    }

    /// Resets the color to white if the single digit of the escape sequence
    /// is 0; any other digit changes nothing.
    fn graphics_command(&mut self)
        requires
            old(self)@.control_state.color_index == 1,
        ensures
            final(self).font() == old(self).font(),
            final(self)@ == old(self)@.with_digits_applied(),
    {
        if self.state.control_state.first == '0' {
            self.state.color = Color(WHITE);
        }
    }
}

/// The glyph in cell `cell` of a grid of cells of `size` pixels on a screen
/// of `screen` pixels starts on the screen.
pub proof fn lemma_cell_on_screen(cell: int, size: int, screen: int)
    requires
        0 <= cell < screen / size,
        0 < size,
    ensures
        0 <= cell * size,
        cell * size + size <= screen,
{
    vstd::arithmetic::div_mod::lemma_fundamental_div_mod(screen, size);
    assert(cell * size + size <= size * (screen / size)) by (nonlinear_arith)
        requires
            0 <= cell < screen / size,
            0 < size,
    ;
    assert(0 <= cell * size) by (nonlinear_arith)
        requires
            0 <= cell,
            0 < size,
    ;
}

} // verus!
