use vstd::prelude::*;
use crate::framebuffer::{on_screen, paint, Drawer};
use crate::graphics::{Color, DrawError, DrawErrorExt, Point, Rectangle, Size};

verus! {

/// The size of a glyph in pixels, as drawing coordinates.
pub const FONT_PIXEL_SIZE_X: i32 = 8;

/// The height of a glyph in pixels.
pub const FONT_PIXEL_SIZE_Y: i32 = 16;

/// The byte a character is drawn as: itself when it is in `0..=255`, `?` otherwise.
pub open spec fn byte_of(ch: char) -> u8 {
    if (ch as u32) <= 255 {
        (ch as u32) as u8
    } else {
        63u8
    }
}

/// The `k`-th point of the glyph cell at `pos`, column by column.
pub open spec fn glyph_point(pos: Point<i32>, k: int) -> Point<i32> {
    Point { x: (pos.x + k / 16) as i32, y: (pos.y + k % 16) as i32 }
}

/// The pixel of the `k`-th point of a glyph is set: bit `7 - k / 16` of
/// row `k % 16`.
pub open spec fn glyph_bit(glyph: Seq<u8>, k: int) -> bool {
    (glyph[k % 16] << ((k / 16) as usize)) & 0x80u8 != 0u8
}

/// The buffer after the set pixels among the first `n` points of the glyph
/// cell at `pos` are drawn in `color`.
pub open spec fn paint_glyph(
    buf: Seq<u8>,
    info: crate::boot_info::FrameBufferInfo,
    pos: Point<i32>,
    glyph: Seq<u8>,
    color: Color,
    n: int,
) -> Seq<u8>
    decreases n,
{
    if n <= 0 {
        buf
    } else {
        let before = paint_glyph(buf, info, pos, glyph, color, n - 1);
        if glyph_bit(glyph, n - 1) {
            paint(before, info, glyph_point(pos, n - 1), color)
        } else {
            before
        }
    }
}

/// The `k`-th point of the glyph is a set pixel that lies off the screen.
pub open spec fn glyph_blocked(
    info: crate::boot_info::FrameBufferInfo,
    pos: Point<i32>,
    glyph: Seq<u8>,
    k: int,
) -> bool {
    glyph_bit(glyph, k) && !on_screen(info, glyph_point(pos, k).x as int, glyph_point(pos, k).y as int)
}

/// Drawing `glyph` with its cell at `pos` on a buffer `before` gives the
/// outcome `r` and the buffer `after`: every set pixel is drawn, column by
/// column; the first set pixel off the screen fails the drawing with
/// `PointOutArea` and stops it there, unless off-screen pixels are ignored.
pub open spec fn glyph_drawn(
    before: Seq<u8>,
    info: crate::boot_info::FrameBufferInfo,
    pos: Point<i32>,
    glyph: Seq<u8>,
    color: Color,
    ignore_out_of_range: bool,
    r: Result<(), DrawError>,
    after: Seq<u8>,
) -> bool {
    if ignore_out_of_range || (forall|k: int| 0 <= k < 128 ==> !#[trigger] glyph_blocked(info, pos, glyph, k)) {
        &&& r is Ok
        &&& after == paint_glyph(before, info, pos, glyph, color, 128)
    } else {
        exists|k: int| {
            &&& 0 <= k < 128
            &&& #[trigger] glyph_blocked(info, pos, glyph, k)
            &&& forall|k2: int| 0 <= k2 < k ==> !#[trigger] glyph_blocked(info, pos, glyph, k2)
            &&& r == Err::<(), DrawError>(DrawError::PointOutArea(glyph_point(pos, k)))
            &&& after == paint_glyph(before, info, pos, glyph, color, k)
        }
    }
}

/// A character beyond `0..=255` is drawn exactly as `?` is: with any font,
/// on any buffer, the same outcomes and pixels are those of `draw_char`.
pub proof fn lemma_wide_char_draws_as_question_mark(
    font: Seq<[u8; 16]>,
    ch: char,
    before: Seq<u8>,
    info: crate::boot_info::FrameBufferInfo,
    pos: Point<i32>,
    color: Color,
    ignore_out_of_range: bool,
    r: Result<(), DrawError>,
    after: Seq<u8>,
)
    requires
        ch as u32 > 0xff,
    ensures
        glyph_drawn(before, info, pos, font[byte_of(ch) as int]@, color, ignore_out_of_range, r, after)
            == glyph_drawn(before, info, pos, font[byte_of('?') as int]@, color, ignore_out_of_range, r, after),
{
    assert(byte_of(ch) == byte_of('?'));
}

/// The byte a character is drawn as.
pub fn char_to_byte(ch: char) -> (r: u8)
    ensures
        r == byte_of(ch),
{
    let codepoint = ch as u32;
    if codepoint <= 255 {
        codepoint as u8
    } else {
        63u8
    }
}

/// The glyph of a byte in a font table of 256 glyphs.
pub fn get_ascii_font(font: &[[u8; 16]], ch: u8) -> (r: [u8; 16])
    requires
        font.len() == 256,
    ensures
        r == font@[ch as int],
{
    font[ch as usize]
}

/// Draws a character with the glyph of its byte, the cell's top left
/// corner at `pos`: every set pixel of the glyph, column by column. A set
/// pixel off the screen fails the call with `PointOutArea` and stops it,
/// unless `ignore_out_of_range` is given, when it is skipped.
pub fn draw_char(
    drawer: &mut Drawer,
    pos: Point<i32>,
    ch: char,
    color: Color,
    ignore_out_of_range: bool,
    font: &[[u8; 16]],
) -> (r: Result<(), DrawError>)
    requires
        font.len() == 256,
        pos.x + 8 <= i32::MAX,
        pos.y + 16 <= i32::MAX,
    ensures
        final(drawer).frame_info() == old(drawer).frame_info(),
        glyph_drawn(
            old(drawer).pixels(),
            old(drawer).frame_info(),
            pos,
            font@[byte_of(ch) as int]@,
            color,
            ignore_out_of_range,
            r,
            final(drawer).pixels(),
        ),
{
    let byte = char_to_byte(ch);
    let glyph = get_ascii_font(font, byte);
    let ghost g = glyph@;
    let ghost info = old(drawer).frame_info();
    let ghost start = old(drawer).pixels();
    let draw_rect = Rectangle::new(pos, Size::new(FONT_PIXEL_SIZE_X, FONT_PIXEL_SIZE_Y));
    let font_rect: Rectangle<usize> = Rectangle::new(Point::new(0, 0), Size::new(8, 16));
    let draw_points = draw_rect.points();
    let font_points = font_rect.points();
    assert(draw_rect.columns() == 8 && draw_rect.rows() == 16);
    assert(font_rect.columns() == 8 && font_rect.rows() == 16);
    proof {
        let (c, r) = (draw_rect.columns(), draw_rect.rows());
        assert(draw_points.len() == 128) by (nonlinear_arith)
            requires draw_points.len() == c * r, c == 8, r == 16;
        let (c2, r2) = (font_rect.columns(), font_rect.rows());
        assert(font_points.len() == 128) by (nonlinear_arith)
            requires font_points.len() == c2 * r2, c2 == 8, r2 == 16;
    }
    let mut failure: Option<DrawError> = None;
    let mut k: usize = 0;
    while k < 128 && failure.is_none()
        invariant
            0 <= k <= 128,
            draw_points.len() == 128,
            font_points.len() == 128,
            forall|i: int, j: int|
                0 <= i < 8 && 0 <= j < 16 ==> {
                    &&& (#[trigger] draw_points@[i * 16 + j]).x as int == pos.x + i
                    &&& draw_points@[i * 16 + j].y as int == pos.y + j
                },
            forall|i: int, j: int|
                0 <= i < 8 && 0 <= j < 16 ==> {
                    &&& (#[trigger] font_points@[i * 16 + j]).x as int == i
                    &&& font_points@[i * 16 + j].y as int == j
                },
            g == glyph@,
            glyph@.len() == 16,
            drawer.frame_info() == info,
            failure is None ==> {
                &&& ignore_out_of_range || (forall|k2: int| 0 <= k2 < k ==> !#[trigger] glyph_blocked(info, pos, g, k2))
                &&& drawer.pixels() == paint_glyph(start, info, pos, g, color, k as int)
            },
            failure is Some ==> {
                &&& !ignore_out_of_range
                &&& 0 < k
                &&& glyph_blocked(info, pos, g, k - 1)
                &&& forall|k2: int| 0 <= k2 < k - 1 ==> !#[trigger] glyph_blocked(info, pos, g, k2)
                &&& failure == Some(DrawError::PointOutArea(glyph_point(pos, k - 1)))
                &&& drawer.pixels() == paint_glyph(start, info, pos, g, color, k - 1)
            },
        decreases 128 - k,
    {
        let draw_pos = draw_points[k];
        let font_pos = font_points[k];
        proof {
            let i = k / 16;
            let j = k % 16;
            assert(k == i * 16 + j);
            assert(draw_pos.x as int == pos.x + i && draw_pos.y as int == pos.y + j);
            assert(draw_pos == glyph_point(pos, k as int));
            assert(font_pos.x as int == i && font_pos.y as int == j);
        }
        if ((glyph[font_pos.y] << font_pos.x) & 0x80) != 0 {
            assert(glyph_bit(g, k as int));
            let drawn = drawer.try_draw(draw_pos, color);
            match drawn.ignore_out_of_range(ignore_out_of_range) {
                Ok(()) => {},
                Err(e) => {
                    proof {
                        assert(glyph_blocked(info, pos, g, k as int));
                    }
                    failure = Some(e);
                },
            }
        } else {
            assert(!glyph_bit(g, k as int));
        }
        k = k + 1;
    }
    match failure {
        None => Ok(()),
        Some(e) => Err(e),
    }
}

/// The buffer after the first `n` bytes of `bytes` are drawn side by side
/// from `pos`, each in its glyph cell, set pixels off the screen skipped.
pub open spec fn paint_bytes(
    buf: Seq<u8>,
    info: crate::boot_info::FrameBufferInfo,
    pos: Point<i32>,
    bytes: Seq<u8>,
    font: Seq<[u8; 16]>,
    color: Color,
    n: int,
) -> Seq<u8>
    decreases n,
{
    if n <= 0 {
        buf
    } else {
        let before = paint_bytes(buf, info, pos, bytes, font, color, n - 1);
        let cell = Point { x: (pos.x + 8 * (n - 1)) as i32, y: pos.y };
        paint_glyph(before, info, cell, font[bytes[n - 1] as int]@, color, 128)
    }
}

/// Draws a string of bytes from `pos` to the right, one glyph cell per
/// byte; set pixels off the screen are skipped.
pub fn draw_byte_string(drawer: &mut Drawer, pos: Point<i32>, bytes: &[u8], color: Color, font: &[[u8; 16]])
    requires
        font.len() == 256,
        pos.x + 8 * bytes.len() <= i32::MAX,
        pos.y + 16 <= i32::MAX,
    ensures
        final(drawer).frame_info() == old(drawer).frame_info(),
        final(drawer).pixels() == paint_bytes(
            old(drawer).pixels(),
            old(drawer).frame_info(),
            pos,
            bytes@,
            font@,
            color,
            bytes.len() as int,
        ),
{
    let mut i: usize = 0;
    let mut cell = pos;
    while i < bytes.len()
        invariant
            0 <= i <= bytes.len(),
            font.len() == 256,
            pos.x + 8 * bytes.len() <= i32::MAX,
            pos.y + 16 <= i32::MAX,
            cell.y == pos.y,
            cell.x as int == pos.x + 8 * i,
            drawer.frame_info() == old(drawer).frame_info(),
            drawer.pixels() == paint_bytes(
                old(drawer).pixels(),
                old(drawer).frame_info(),
                pos,
                bytes@,
                font@,
                color,
                i as int,
            ),
        decreases bytes.len() - i,
    {
        let byte = bytes[i];
        let ch = byte as char;
        assert(byte_of(ch) == byte);
        let _ = draw_char(drawer, cell, ch, color, true, font);
        proof {
            assert(cell == Point { x: (pos.x + 8 * i) as i32, y: pos.y });
        }
        i = i + 1;
        cell.x = cell.x + 8;
    }
}

} // verus!
