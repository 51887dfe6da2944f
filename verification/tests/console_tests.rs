use deepcis_os::boot_info::{FrameBufferInfo, PixelFormat};
use deepcis_os::console::{Console, RedrawArea, COLUMNS, ROWS};
use deepcis_os::framebuffer::Drawer;
use deepcis_os::graphics::{Color, Point, Rectangle, Size};

fn row_text(c: &Console, y: usize) -> Vec<u8> {
    (0..COLUMNS).map(|x| c.cell(x, y)).collect()
}

fn area(x: usize, y: usize, w: usize, h: usize) -> Rectangle<usize> {
    Rectangle::new(Point::new(x, y), Size::new(w, h))
}

#[test]
fn new_console_is_blank() {
    let c = Console::new(Color::new(1, 1, 1), Color::new(2, 2, 2));
    for y in 0..ROWS {
        assert!(row_text(&c, y).iter().all(|b| *b == 0));
    }
    assert_eq!(c.fg_color(), Color::new(1, 1, 1));
    assert_eq!(c.bg_color(), Color::new(2, 2, 2));
}

#[test]
fn write_str_stores_text_and_reports_the_area() {
    let mut c = Console::new(Color::new(1, 1, 1), Color::new(0, 0, 0));
    let rd = c.write_str("hey");
    assert_eq!(&row_text(&c, 0)[0..4], b"hey\0");
    // the area grows to reach the last cursor position but stops short of it
    assert_eq!(rd, RedrawArea { area: area(0, 0, 2, 1), fill_bg: false });
    let rd = c.write_str("!");
    assert_eq!(rd, RedrawArea { area: area(3, 0, 1, 1), fill_bg: false });
    assert_eq!(&row_text(&c, 0)[0..4], b"hey!");
}

#[test]
fn newline_moves_to_the_next_row() {
    let mut c = Console::new(Color::new(1, 1, 1), Color::new(0, 0, 0));
    let rd = c.write_str("ab\ncd");
    assert_eq!(&row_text(&c, 0)[0..2], b"ab");
    assert_eq!(&row_text(&c, 1)[0..2], b"cd");
    // the cursor positions seen stretch the area no further than its first cell
    assert_eq!(rd, RedrawArea { area: area(0, 0, 1, 1), fill_bg: false });
}

#[test]
fn characters_past_the_last_column_are_dropped() {
    let mut c = Console::new(Color::new(1, 1, 1), Color::new(0, 0, 0));
    let long: String = std::iter::repeat('x').take(100).collect();
    c.write_str(&long);
    let row = row_text(&c, 0);
    assert!(row[0..COLUMNS - 1].iter().all(|b| *b == b'x'));
    assert_eq!(row[COLUMNS - 1], 0);
    c.write_str("\ny");
    assert_eq!(row_text(&c, 1)[0], b'y');
}

#[test]
fn non_latin1_characters_are_stored_as_question_marks() {
    let mut c = Console::new(Color::new(1, 1, 1), Color::new(0, 0, 0));
    c.write_str("aあb");
    assert_eq!(&row_text(&c, 0)[0..3], b"a?b");
}

#[test]
fn newline_on_the_last_row_scrolls() {
    let mut c = Console::new(Color::new(1, 1, 1), Color::new(0, 0, 0));
    for i in 0..ROWS {
        let line = format!("{}\n", (b'a' + i as u8) as char);
        let rd = c.write_str(&line);
        if i < ROWS - 1 {
            assert!(!rd.fill_bg);
        } else {
            assert_eq!(rd, RedrawArea { area: area(0, 0, COLUMNS, ROWS), fill_bg: true });
        }
    }
    // the first line scrolled away
    for y in 0..ROWS - 1 {
        assert_eq!(row_text(&c, y)[0], b'b' + y as u8);
    }
    assert!(row_text(&c, ROWS - 1).iter().all(|b| *b == 0));
    c.write_str("z");
    assert_eq!(row_text(&c, ROWS - 1)[0], b'z');
}

#[test]
fn redraw_area_add() {
    let mut rd = RedrawArea::new();
    assert_eq!(rd, RedrawArea { area: area(0, 0, 0, 0), fill_bg: false });
    rd.add(Point::new(4, 2));
    assert_eq!(rd.area, area(4, 2, 1, 1));
    rd.add(Point::new(7, 5));
    assert_eq!(rd.area, area(4, 2, 3, 3));
    rd.add(Point::new(1, 3));
    assert_eq!(rd.area, area(1, 2, 6, 3));
}

fn gray_info(w: usize, h: usize) -> FrameBufferInfo {
    FrameBufferInfo {
        byte_len: w * h,
        horizontal_resolution: w,
        vertical_resolution: h,
        pixel_format: PixelFormat::U8,
        bytes_per_pixel: 1,
        stride: w,
    }
}

#[test]
fn writer_draws_what_changed() {
    let mut font = vec![[0u8; 16]; 256];
    font[b'x' as usize][0] = 0b1000_0000;
    let i = gray_info(40, 20);
    let mut buf = vec![0u8; i.byte_len];
    let mut c = Console::new(Color::new(200, 200, 200), Color::new(0, 0, 0));
    {
        let mut d = Drawer::new(&mut buf, i);
        let mut w = c.create_writer(&mut d, &font);
        assert_eq!(w.to_draw_point(Point::new(3, 1)), Point::new(24, 16));
        assert_eq!(w.to_draw_rect(area(1, 2, 3, 4)), Rectangle::new(Point::new(8, 32), Size::new(24, 64)));
        w.write_str("xxx");
    }
    // the redraw area covers cells 0 and 1 of row 0: two glyphs are drawn
    let lit: Vec<usize> = (0..buf.len()).filter(|k| buf[*k] != 0).collect();
    assert_eq!(lit, vec![0, 8]);
    assert_eq!(&row_text(&c, 0)[0..3], b"xxx");
}

#[test]
fn writer_clears_the_screen_after_scrolling() {
    let font = vec![[0u8; 16]; 256];
    let i = gray_info(COLUMNS * 8, ROWS * 16);
    let mut buf = vec![7u8; i.byte_len];
    let mut c = Console::new(Color::new(200, 200, 200), Color::new(30, 30, 30));
    {
        let mut d = Drawer::new(&mut buf, i);
        let mut w = c.create_writer(&mut d, &font);
        for _ in 0..ROWS {
            w.write_str("\n");
        }
    }
    assert!(buf.iter().all(|b| *b == 30));
}

#[test]
fn redraw_area_add_to_an_empty_area_takes_the_point() {
    let mut rd = RedrawArea { area: area(usize::MAX, usize::MAX, 0, 7), fill_bg: true };
    rd.add(Point::new(3, 4));
    assert_eq!(rd, RedrawArea { area: area(3, 4, 1, 1), fill_bg: true });
}
