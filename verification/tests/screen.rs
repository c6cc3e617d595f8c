use molecule::drivers::framebuffer::color::{
    Color, BLACK, BLUE, CYAN, GREEN, MAGENTA, RED, WHITE, YELLOW,
};
use molecule::drivers::framebuffer::console::Console;
use molecule::drivers::framebuffer::FrameBufferInfo;
use molecule::psf::PsfFont;

/// A font of 8 by 4 pixels with two glyphs beside the empty ones: `A` is a
/// full box, `B` has its first and last column set in its first row.
fn font_bytes() -> Vec<u8> {
    let mut bytes = vec![0u8; 32];
    bytes[0..4].copy_from_slice(&[0x72, 0xB5, 0x4A, 0x86]);
    bytes[8..12].copy_from_slice(&[32, 0, 0, 0]);
    bytes[16..20].copy_from_slice(&[0, 1, 0, 0]);
    bytes[20..24].copy_from_slice(&[4, 0, 0, 0]);
    bytes[24..28].copy_from_slice(&[4, 0, 0, 0]);
    bytes[28..32].copy_from_slice(&[8, 0, 0, 0]);
    bytes.resize(32 + 256 * 4, 0);
    let a = 32 + (b'A' as usize) * 4;
    bytes[a..a + 4].copy_from_slice(&[0xFF, 0xFF, 0xFF, 0xFF]);
    let b = 32 + (b'B' as usize) * 4;
    bytes[b] = 0x81;
    bytes
}

fn pixel(fb: &FrameBufferInfo, x: usize, y: usize) -> u32 {
    fb.pixel_at(x, y).unwrap()
}

#[test]
fn colors_are_packed() {
    assert_eq!(Color::new(0x12, 0x34, 0x56).value(), 0x0012_3456);
    assert_eq!(Color::new(0, 0, 0).value(), 0);
    assert_eq!(Color::new(255, 255, 255).value(), 0x00FF_FFFF);
    assert_eq!(Color(WHITE).value(), 0xFFFF_FFFF);
    assert_eq!(BLACK, 0xFF00_0000);
    assert_eq!(RED, 0xFFFF_0000);
    assert_eq!(GREEN, 0xFF00_FF00);
    assert_eq!(BLUE, 0xFF00_00FF);
    assert_eq!(YELLOW, 0xFFFF_FF00);
    assert_eq!(MAGENTA, 0xFFFF_00FF);
    assert_eq!(CYAN, 0xFF00_FFFF);
}

#[test]
fn the_header_of_a_font_is_read_lowest_byte_first() {
    let mut bytes = font_bytes();
    bytes[24..28].copy_from_slice(&[0x0F, 0x01, 0x00, 0x00]);
    bytes[28..32].copy_from_slice(&[0x08, 0x00, 0x02, 0x01]);
    let font = PsfFont::from_bytes(bytes);
    assert_eq!(font.height(), 0x010F);
    assert_eq!(font.width(), 0x0102_0008);
}

#[test]
fn glyph_rows_are_read_from_the_font() {
    let font = PsfFont::from_bytes(font_bytes());
    assert_eq!(font.width(), 8);
    assert_eq!(font.height(), 4);
    assert_eq!(font.read_glyph_row(b'A' as usize, 0), 0xFF);
    assert_eq!(font.read_glyph_row(b'A' as usize, 3), 0xFF);
    assert_eq!(font.read_glyph_row(b'B' as usize, 0), 0x81);
    assert_eq!(font.read_glyph_row(b'B' as usize, 1), 0);
    // a row past the glyph is the first row of the next glyph
    assert_eq!(font.read_glyph_row(b'A' as usize, 4), 0x81);
    // past the end of the font
    assert_eq!(font.read_glyph_row(256, 0), 0);
    assert_eq!(font.read_glyph_row(usize::MAX, usize::MAX), 0);
}

#[test]
fn pixels_are_drawn_inside_the_screen_only() {
    let mut fb = FrameBufferInfo::new(4, 3, 20);
    assert_eq!(fb.width(), 4);
    assert_eq!(fb.height(), 3);
    fb.draw_pixel(1, 2, Color(RED));
    fb.draw_pixel(4, 0, Color(BLUE));
    fb.draw_pixel(0, 3, Color(BLUE));
    for y in 0..3 {
        for x in 0..4 {
            assert_eq!(pixel(&fb, x, y), if (x, y) == (1, 2) { RED } else { 0 });
        }
    }
    assert_eq!(fb.pixel_at(4, 0), None);
    assert_eq!(fb.pixel_at(0, 3), None);
    fb.clear_screen(Color(GREEN));
    for y in 0..3 {
        for x in 0..4 {
            assert_eq!(pixel(&fb, x, y), GREEN);
        }
    }
}

#[test]
fn a_glyph_is_drawn_bit_by_bit() {
    let font = PsfFont::from_bytes(font_bytes());
    let mut fb = FrameBufferInfo::new(20, 10, 80);
    fb.draw_char(2, 3, Color(WHITE), 'B', &font);
    for y in 0..10 {
        for x in 0..20 {
            let set = y == 3 && (x == 2 || x == 9);
            assert_eq!(pixel(&fb, x, y), if set { WHITE } else { 0 });
        }
    }
    fb.draw_char(15, 8, Color(RED), 'A', &font);
    for y in 0..10 {
        for x in 0..20 {
            let first = y == 3 && (x == 2 || x == 9);
            let second = x >= 15 && y >= 8;
            let expected = if second { RED } else if first { WHITE } else { 0 };
            assert_eq!(pixel(&fb, x, y), expected);
        }
    }
}

#[test]
fn a_string_is_drawn_glyph_after_glyph() {
    let font = PsfFont::from_bytes(font_bytes());
    let mut fb = FrameBufferInfo::new(40, 4, 160);
    fb.draw_string(0, 0, Color(CYAN), "AB", &font);
    for y in 0..4 {
        for x in 0..40 {
            let a = (1..9).contains(&x);
            let b = y == 0 && (x == 9 || x == 16);
            assert_eq!(pixel(&fb, x, y), if a || b { CYAN } else { 0 });
        }
    }
}

#[test]
fn scrolling_moves_the_rows_up() {
    let mut fb = FrameBufferInfo::new(2, 4, 8);
    for y in 0..4 {
        for x in 0..2 {
            fb.draw_pixel(x, y, Color((10 * y + x) as u32 + 1));
        }
    }
    fb.scroll(1);
    for x in 0..2 {
        assert_eq!(pixel(&fb, x, 0), 10 + x as u32 + 1);
        assert_eq!(pixel(&fb, x, 1), 20 + x as u32 + 1);
        assert_eq!(pixel(&fb, x, 2), 30 + x as u32 + 1);
        assert_eq!(pixel(&fb, x, 3), 0);
    }
    fb.scroll(3);
    for x in 0..2 {
        assert_eq!(pixel(&fb, x, 0), 0);
        assert_eq!(pixel(&fb, x, 2), 0);
    }
}

#[test]
fn the_console_draws_and_moves_its_cursor() {
    let mut fb = FrameBufferInfo::new(33, 13, 132);
    let mut console = Console::new(PsfFont::from_bytes(font_bytes()));
    assert_eq!(console.get_wrap_pos(&fb), 4);
    assert_eq!(console.get_scroll_pos(&fb), 3);
    assert_eq!(console.cursor(), (0, 0));
    console.write_char(&mut fb, 'A');
    assert_eq!(console.cursor(), (1, 0));
    assert_eq!(pixel(&fb, 0, 1), 0);
    assert_eq!(pixel(&fb, 1, 0), 0);
    assert_eq!(pixel(&fb, 1, 1), WHITE);
    assert_eq!(pixel(&fb, 8, 4), WHITE);
    assert_eq!(pixel(&fb, 9, 1), 0);
    console.write_char(&mut fb, '\n');
    assert_eq!(console.cursor(), (0, 1));
    console.write_str(&mut fb, "AAA");
    assert_eq!(console.cursor(), (3, 1));
    assert_eq!(pixel(&fb, 24, 5), WHITE);
    assert_eq!(pixel(&fb, 25, 5), 0);
    // the fourth glyph of a row wraps the cursor to the next row
    console.write_char(&mut fb, 'B');
    assert_eq!(console.cursor(), (0, 2));
    assert_eq!(pixel(&fb, 25, 5), WHITE);
    assert_eq!(pixel(&fb, 32, 5), WHITE);
}

#[test]
fn the_console_scrolls_at_the_last_row() {
    let mut fb = FrameBufferInfo::new(33, 13, 132);
    let mut console = Console::new(PsfFont::from_bytes(font_bytes()));
    console.write_str(&mut fb, "A\n\nB");
    assert_eq!(console.cursor(), (1, 2));
    assert_eq!(pixel(&fb, 1, 1), WHITE);
    assert_eq!(pixel(&fb, 1, 9), WHITE);
    assert_eq!(pixel(&fb, 8, 9), WHITE);
    console.write_char(&mut fb, '\n');
    // the picture moved up by the height of a glyph, the cursor stays
    assert_eq!(console.cursor(), (0, 2));
    assert_eq!(pixel(&fb, 1, 1), 0);
    assert_eq!(pixel(&fb, 1, 5), WHITE);
    assert_eq!(pixel(&fb, 8, 5), WHITE);
    assert_eq!(pixel(&fb, 1, 9), 0);
    for x in 0..33 {
        assert_eq!(pixel(&fb, x, 12), 0);
    }
}

#[test]
fn escape_sequences_set_the_color() {
    let mut fb = FrameBufferInfo::new(33, 13, 132);
    let mut console = Console::new(PsfFont::from_bytes(font_bytes()));
    assert_eq!(console.color(), Color(WHITE));
    let codes = [
        ("\x1b[30m", BLACK),
        ("\x1b[31m", RED),
        ("\x1b[32m", GREEN),
        ("\x1b[33m", YELLOW),
        ("\x1b[34m", BLUE),
        ("\x1b[35m", MAGENTA),
        ("\x1b[36m", CYAN),
        ("\x1b[37m", WHITE),
        ("\x1b[31;39m", WHITE),
        ("\x1b[34;", BLUE),
        ("\x1b[0m", WHITE),
    ];
    for (text, color) in codes {
        console.write_str(&mut fb, text);
        assert_eq!(console.color(), Color(color));
        console.write_char(&mut fb, 'x');
        console.write_char(&mut fb, '\n');
    }
    // nothing of the sequences was drawn, and the cursor did not move for them
    console.write_str(&mut fb, "\x1b[32m");
    assert_eq!(console.cursor().0, 0);
    console.write_char(&mut fb, 'A');
    assert_eq!(console.cursor().0, 1);
    assert_eq!(pixel(&fb, 1, 9), GREEN);
}

#[test]
fn unknown_sequences_change_nothing() {
    let mut fb = FrameBufferInfo::new(33, 13, 132);
    let mut console = Console::new(PsfFont::from_bytes(font_bytes()));
    console.write_str(&mut fb, "\x1b[34m");
    for text in ["\x1b[40m", "\x1b[38m", "\x1b[5m", "\x1b[m", "\x1b[123m", "\x1bz"] {
        console.write_str(&mut fb, text);
        assert_eq!(console.color(), Color(BLUE));
    }
    // after three digits the sequence is over and the rest is drawn
    assert_eq!(console.cursor(), (1, 0));
    console.write_str(&mut fb, "A");
    assert_eq!(console.cursor(), (2, 0));
}
