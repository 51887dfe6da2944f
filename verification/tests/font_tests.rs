use deepcis_os::boot_info::{FrameBufferInfo, PixelFormat};
use deepcis_os::font::{char_to_byte, draw_byte_string, draw_char, get_ascii_font};
use deepcis_os::framebuffer::Drawer;
use deepcis_os::graphics::{Color, DrawError, Point};

fn gray_info(w: usize, h: usize) -> FrameBufferInfo {
    FrameBufferInfo {
        byte_len: w * h,
        horizontal_resolution: w,
        vertical_resolution: h,
        pixel_format: PixelFormat::U8,
        bytes_per_pixel: 1,
        stride: w,
    }
}

/// A font whose glyph for `A` has the top-left and top-right pixel and the
/// second pixel of the last row set; `?` has only its top-left pixel set.
fn test_font() -> Vec<[u8; 16]> {
    let mut font = vec![[0u8; 16]; 256];
    font[b'A' as usize][0] = 0b1000_0001;
    font[b'A' as usize][15] = 0b0100_0000;
    font[b'?' as usize][0] = 0b1000_0000;
    font
}

fn lit(buf: &[u8], w: usize) -> Vec<(usize, usize)> {
    let mut v = Vec::new();
    for (i, b) in buf.iter().enumerate() {
        if *b != 0 {
            v.push((i % w, i / w));
        }
    }
    v
}

#[test]
fn char_to_byte_maps_non_latin1_to_question_mark() {
    assert_eq!(char_to_byte('A'), b'A');
    assert_eq!(char_to_byte('\n'), b'\n');
    assert_eq!(char_to_byte('\u{ff}'), 0xff);
    assert_eq!(char_to_byte('あ'), b'?');
}

#[test]
fn get_ascii_font_picks_the_glyph() {
    let font = test_font();
    assert_eq!(get_ascii_font(&font, b'A')[0], 0b1000_0001);
    assert_eq!(get_ascii_font(&font, b'B'), [0u8; 16]);
}

#[test]
fn draw_char_draws_the_set_pixels() {
    let font = test_font();
    let i = gray_info(20, 20);
    let mut buf = vec![0u8; i.byte_len];
    {
        let mut d = Drawer::new(&mut buf, i);
        assert_eq!(draw_char(&mut d, Point::new(2, 1), 'A', Color::new(9, 9, 9), false, &font), Ok(()));
    }
    assert_eq!(lit(&buf, 20), vec![(2, 1), (9, 1), (3, 16)]);
}

#[test]
fn draw_char_stops_at_the_first_pixel_off_the_screen() {
    let font = test_font();
    let i = gray_info(8, 8);
    let mut buf = vec![0u8; i.byte_len];
    {
        let mut d = Drawer::new(&mut buf, i);
        let r = draw_char(&mut d, Point::new(0, 0), 'A', Color::new(9, 9, 9), false, &font);
        // pixel (0, 0) is drawn, then (1, 15) lies below the screen
        assert_eq!(r, Err(DrawError::PointOutArea(Point::new(1, 15))));
    }
    assert_eq!(lit(&buf, 8), vec![(0, 0)]);
}

#[test]
fn draw_char_skips_pixels_off_the_screen_when_asked() {
    let font = test_font();
    let i = gray_info(8, 8);
    let mut buf = vec![0u8; i.byte_len];
    {
        let mut d = Drawer::new(&mut buf, i);
        let r = draw_char(&mut d, Point::new(0, 0), 'A', Color::new(9, 9, 9), true, &font);
        assert_eq!(r, Ok(()));
    }
    assert_eq!(lit(&buf, 8), vec![(0, 0), (7, 0)]);
}

#[test]
fn draw_char_uses_question_mark_for_wide_characters() {
    let font = test_font();
    let i = gray_info(10, 10);
    let mut buf = vec![0u8; i.byte_len];
    {
        let mut d = Drawer::new(&mut buf, i);
        assert_eq!(draw_char(&mut d, Point::new(1, 1), '字', Color::new(9, 9, 9), true, &font), Ok(()));
    }
    assert_eq!(lit(&buf, 10), vec![(1, 1)]);
}

#[test]
fn draw_byte_string_places_glyphs_side_by_side() {
    let font = test_font();
    let i = gray_info(30, 2);
    let mut buf = vec![0u8; i.byte_len];
    {
        let mut d = Drawer::new(&mut buf, i);
        draw_byte_string(&mut d, Point::new(1, 0), b"A?A", Color::new(9, 9, 9), &font);
    }
    assert_eq!(lit(&buf, 30), vec![(1, 0), (8, 0), (9, 0), (17, 0), (24, 0)]);
}
