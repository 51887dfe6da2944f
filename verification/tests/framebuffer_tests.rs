use deepcis_os::boot_info::{FrameBufferInfo, PixelFormat};
use deepcis_os::framebuffer::{layout_matches, select_pixel_drawer, Drawer, PixelDrawer};
use deepcis_os::graphics::{Color, DrawError, Point, Rectangle, Size};

fn info(format: PixelFormat, w: usize, h: usize, bpp: usize) -> FrameBufferInfo {
    FrameBufferInfo {
        byte_len: w * h * bpp,
        horizontal_resolution: w,
        vertical_resolution: h,
        pixel_format: format,
        bytes_per_pixel: bpp,
        stride: w * bpp,
    }
}

#[test]
fn rgb_pixel_is_written_at_its_offset() {
    let i = info(PixelFormat::RGB, 4, 3, 4);
    let mut buf = vec![0u8; i.byte_len];
    {
        let mut d = Drawer::new(&mut buf, i);
        assert_eq!(d.pixel_index(Point::new(2, 1)), Some(16 + 8));
        assert!(d.draw(Point::new(2, 1), Color::new(1, 2, 3)));
    }
    assert_eq!(&buf[24..28], &[1, 2, 3, 0]);
    assert_eq!(buf.iter().filter(|b| **b != 0).count(), 3);
}

#[test]
fn bgr_pixel_swaps_red_and_blue() {
    let i = info(PixelFormat::BGR, 2, 2, 3);
    let mut buf = vec![0u8; i.byte_len];
    {
        let mut d = Drawer::new(&mut buf, i);
        assert!(d.draw(Point::new(1, 0), Color::new(9, 8, 7)));
    }
    assert_eq!(buf, vec![0, 0, 0, 7, 8, 9, 0, 0, 0, 0, 0, 0]);
}

#[test]
fn u8_pixel_is_grayscale() {
    let i = info(PixelFormat::U8, 3, 1, 1);
    let mut buf = vec![0u8; 3];
    {
        let mut d = Drawer::new(&mut buf, i);
        assert!(d.draw(Point::new(2, 0), Color::new(30, 60, 90)));
    }
    assert_eq!(buf, vec![0, 0, 60]);
}

#[test]
fn unsupported_format_draws_nothing() {
    let i = info(PixelFormat::Other, 2, 2, 4);
    let mut buf = vec![0u8; i.byte_len];
    {
        let mut d = Drawer::new(&mut buf, i);
        assert!(!d.draw(Point::new(0, 0), Color::new(1, 1, 1)));
    }
    assert!(buf.iter().all(|b| *b == 0));
    assert!(matches!(select_pixel_drawer(PixelFormat::Other), PixelDrawer::Unsupported(_)));
    assert!(matches!(select_pixel_drawer(PixelFormat::RGB), PixelDrawer::Rgb(_)));
    assert!(matches!(select_pixel_drawer(PixelFormat::BGR), PixelDrawer::Bgr(_)));
    assert!(matches!(select_pixel_drawer(PixelFormat::U8), PixelDrawer::U8(_)));
}

#[test]
fn points_off_the_screen_are_refused() {
    let i = info(PixelFormat::RGB, 4, 3, 4);
    let mut buf = vec![0u8; i.byte_len];
    {
        let mut d = Drawer::new(&mut buf, i);
        assert_eq!(d.pixel_index(Point::new(-1, 0)), None);
        assert_eq!(d.pixel_index(Point::new(4, 0)), None);
        assert_eq!(d.pixel_index(Point::new(0, 3)), None);
        assert!(!d.draw(Point::new(0, -1), Color::new(5, 5, 5)));
        assert_eq!(
            d.try_draw(Point::new(7, 1), Color::new(5, 5, 5)),
            Err(DrawError::PointOutArea(Point::new(7, 1)))
        );
        assert_eq!(d.try_draw(Point::new(0, 0), Color::new(5, 5, 5)), Ok(()));
        assert_eq!(d.x_range(), 0..4);
        assert_eq!(d.y_range(), 0..3);
        assert_eq!(d.info(), i);
        assert_eq!(d.area(), Rectangle::new(Point::new(0, 0), Size::new(4, 3)));
    }
    assert_eq!(&buf[0..3], &[5, 5, 5]);
    assert_eq!(buf.iter().filter(|b| **b != 0).count(), 3);
}

fn gray_at(buf: &[u8], w: usize, x: usize, y: usize) -> u8 {
    buf[y * w + x]
}

#[test]
fn fill_rect_covers_the_rectangle_clipped_to_the_screen() {
    let i = info(PixelFormat::U8, 5, 4, 1);
    let mut buf = vec![0u8; i.byte_len];
    {
        let mut d = Drawer::new(&mut buf, i);
        d.fill_rect(Rectangle::new(Point::new(3, 2), Size::new(4, 4)), Color::new(9, 9, 9));
    }
    for y in 0..4 {
        for x in 0..5 {
            let inside = x >= 3 && y >= 2;
            assert_eq!(gray_at(&buf, 5, x, y), if inside { 9 } else { 0 });
        }
    }
}

#[test]
fn draw_rect_draws_the_border_only() {
    let i = info(PixelFormat::U8, 6, 6, 1);
    let mut buf = vec![0u8; i.byte_len];
    {
        let mut d = Drawer::new(&mut buf, i);
        d.draw_rect(Rectangle::new(Point::new(1, 1), Size::new(4, 3)), Color::new(3, 3, 3));
        d.draw_rect(Rectangle::new(Point::new(0, 0), Size::new(0, 3)), Color::new(6, 6, 6));
    }
    for y in 0..6 {
        for x in 0..6 {
            let on_border = (1..5).contains(&x)
                && (1..4).contains(&y)
                && (x == 1 || x == 4 || y == 1 || y == 3);
            assert_eq!(gray_at(&buf, 6, x, y), if on_border { 3 } else { 0 }, "at {x},{y}");
        }
    }
}

#[test]
fn layout_must_cover_the_last_pixel() {
    let info = FrameBufferInfo {
        byte_len: 4 * 3 * 3,
        horizontal_resolution: 4,
        vertical_resolution: 3,
        pixel_format: PixelFormat::RGB,
        bytes_per_pixel: 3,
        stride: 12,
    };
    // The last pixel starts at 2 * 12 + 3 * 3 = 33 and ends at 36.
    assert!(layout_matches(info, 36));
    assert!(!layout_matches(info, 35));
    let short = FrameBufferInfo { byte_len: 35, ..info };
    assert!(!layout_matches(short, 35));
    let empty = FrameBufferInfo { horizontal_resolution: 0, byte_len: 0, ..info };
    assert!(layout_matches(empty, 0));
    let huge = FrameBufferInfo { stride: usize::MAX, ..info };
    assert!(!layout_matches(huge, 36));
}
