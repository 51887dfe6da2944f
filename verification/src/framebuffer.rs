use vstd::prelude::*;
use crate::boot_info::{FrameBufferInfo, PixelFormat};
use crate::graphics::{Color, DrawError, Point, Rectangle, Size};

verus! {

/// The number of bytes a pixel of this format takes when drawn.
pub open spec fn pixel_bytes(format: PixelFormat) -> int {
    match format {
        PixelFormat::RGB => 3,
        PixelFormat::BGR => 3,
        PixelFormat::U8 => 1,
        PixelFormat::Other => 0,
    }
}

/// Where the bytes of the pixel at `(x, y)` start: `y * stride + x * bytes_per_pixel`.
pub open spec fn pixel_offset(info: FrameBufferInfo, x: int, y: int) -> int {
    y * info.stride + x * info.bytes_per_pixel
}

/// The point `(x, y)` lies on the screen.
pub open spec fn on_screen(info: FrameBufferInfo, x: int, y: int) -> bool {
    0 <= x < info.horizontal_resolution && 0 <= y < info.vertical_resolution
}

/// Every pixel on the screen is drawn inside a buffer of `len` bytes.
pub open spec fn layout_fits(info: FrameBufferInfo, len: int) -> bool {
    forall|x: int, y: int|
        on_screen(info, x, y) ==> #[trigger] pixel_offset(info, x, y) + pixel_bytes(info.pixel_format)
            <= len
}

/// The buffer after the pixel starting at byte `i` is written in `color`.
pub open spec fn write_pixel(buf: Seq<u8>, i: int, format: PixelFormat, c: Color) -> Seq<u8> {
    match format {
        PixelFormat::RGB => buf.update(i, c.r).update(i + 1, c.g).update(i + 2, c.b),
        PixelFormat::BGR => buf.update(i, c.b).update(i + 1, c.g).update(i + 2, c.r),
        PixelFormat::U8 => buf.update(i, c.gray()),
        PixelFormat::Other => buf,
    }
}

/// The buffer after the point `p` is drawn in `c`: points off the screen
/// leave it unchanged.
pub open spec fn paint(buf: Seq<u8>, info: FrameBufferInfo, p: Point<i32>, c: Color) -> Seq<u8> {
    if on_screen(info, p.x as int, p.y as int) {
        write_pixel(buf, pixel_offset(info, p.x as int, p.y as int), info.pixel_format, c)
    } else {
        buf
    }
}

/// The buffer after the points `pts` are drawn in `c`, one after the other.
pub open spec fn paint_all(buf: Seq<u8>, info: FrameBufferInfo, pts: Seq<Point<i32>>, c: Color) -> Seq<u8>
    decreases pts.len(),
{
    if pts.len() == 0 {
        buf
    } else {
        paint(paint_all(buf, info, pts.drop_last(), c), info, pts.last(), c)
    }
}

/// Draws pixels whose bytes are red, green, blue.
pub struct RgbPixelDrawer;

/// Draws pixels whose bytes are blue, green, red.
pub struct BgrPixelDrawer;

/// Draws pixels as one grayscale byte.
pub struct U8PixelDrawer;

/// Stands for a pixel layout that cannot be drawn in.
pub struct UnsupportedPixelDrawer;

impl RgbPixelDrawer {
    pub fn pixel_draw(&self, buffer: &mut [u8], pixel_index: usize, c: Color) -> (r: bool)
        requires
            pixel_index + 3 <= old(buffer)@.len(),
        ensures
            final(buffer)@ == write_pixel(old(buffer)@, pixel_index as int, PixelFormat::RGB, c),
            r,
        no_unwind
    {
        buffer[pixel_index] = c.r;
        buffer[pixel_index + 1] = c.g;
        buffer[pixel_index + 2] = c.b;
        true
    }
}

impl BgrPixelDrawer {
    pub fn pixel_draw(&self, buffer: &mut [u8], pixel_index: usize, c: Color) -> (r: bool)
        requires
            pixel_index + 3 <= old(buffer)@.len(),
        ensures
            final(buffer)@ == write_pixel(old(buffer)@, pixel_index as int, PixelFormat::BGR, c),
            r,
        no_unwind
    {
        buffer[pixel_index] = c.b;
        buffer[pixel_index + 1] = c.g;
        buffer[pixel_index + 2] = c.r;
        true
    }
}

impl U8PixelDrawer {
    pub fn pixel_draw(&self, buffer: &mut [u8], pixel_index: usize, c: Color) -> (r: bool)
        requires
            pixel_index + 1 <= old(buffer)@.len(),
        ensures
            final(buffer)@ == write_pixel(old(buffer)@, pixel_index as int, PixelFormat::U8, c),
            r,
        no_unwind
    {
        buffer[pixel_index] = c.to_grayscale();
        true
    }
}

impl UnsupportedPixelDrawer {
    pub fn pixel_draw(&self, buffer: &mut [u8], pixel_index: usize, c: Color) -> (r: bool)
        ensures
            final(buffer)@ == old(buffer)@,
            !r,
        no_unwind
    {
        false
    }
}

/// The pixel drawer picked for a framebuffer.
pub enum PixelDrawer {
    Rgb(RgbPixelDrawer),
    Bgr(BgrPixelDrawer),
    U8(U8PixelDrawer),
    Unsupported(UnsupportedPixelDrawer),
}

impl PixelDrawer {
    /// The pixel format this drawer writes.
    pub open spec fn handles(&self) -> PixelFormat {
        match self {
            PixelDrawer::Rgb(_) => PixelFormat::RGB,
            PixelDrawer::Bgr(_) => PixelFormat::BGR,
            PixelDrawer::U8(_) => PixelFormat::U8,
            PixelDrawer::Unsupported(_) => PixelFormat::Other,
        }
    }
}

/// The pixel drawer for a pixel format.
pub fn select_pixel_drawer(pixel_format: PixelFormat) -> (r: PixelDrawer)
    ensures
        r.handles() == pixel_format,
{
    match pixel_format {
        PixelFormat::RGB => PixelDrawer::Rgb(RgbPixelDrawer),
        PixelFormat::BGR => PixelDrawer::Bgr(BgrPixelDrawer),
        PixelFormat::U8 => PixelDrawer::U8(U8PixelDrawer),
        _ => PixelDrawer::Unsupported(UnsupportedPixelDrawer),
    }
}

/// A buffer of `buffer_len` bytes can back a drawer with geometry `info`:
/// it has the length `info` gives, and the last pixel of the screen ends
/// inside it.
pub fn layout_matches(info: FrameBufferInfo, buffer_len: usize) -> (r: bool)
    ensures
        r == (buffer_len == info.byte_len && (info.horizontal_resolution > 0 && info.vertical_resolution > 0
            ==> pixel_offset(info, info.horizontal_resolution - 1, info.vertical_resolution - 1)
            + pixel_bytes(info.pixel_format) <= info.byte_len)),
{
    if buffer_len != info.byte_len {
        return false;
    }
    if info.horizontal_resolution == 0 || info.vertical_resolution == 0 {
        return true;
    }
    let xm = info.horizontal_resolution - 1;
    let ym = info.vertical_resolution - 1;
    let bytes: usize = match info.pixel_format {
        PixelFormat::RGB => 3,
        PixelFormat::BGR => 3,
        PixelFormat::U8 => 1,
        PixelFormat::Other => 0,
    };
    let end = match ym.checked_mul(info.stride) {
        None => None,
        Some(row) => match xm.checked_mul(info.bytes_per_pixel) {
            None => None,
            Some(col) => match row.checked_add(col) {
                None => None,
                Some(start) => start.checked_add(bytes),
            },
        },
    };
    match end {
        None => {
            assert(ym * info.stride >= 0 && xm * info.bytes_per_pixel >= 0) by (nonlinear_arith);
            false
        },
        Some(e) => e <= info.byte_len,
    }
}

/// Draws into a linear framebuffer.
pub struct Drawer<'a> {
    buffer: &'a mut [u8],
    info: FrameBufferInfo,
    pixel_drawer: PixelDrawer,
}

impl<'a> Drawer<'a> {
    /// The bytes of the framebuffer.
    pub closed spec fn pixels(&self) -> Seq<u8> {
        self.buffer@
    }

    /// The geometry of the framebuffer.
    pub closed spec fn frame_info(&self) -> FrameBufferInfo {
        self.info
    }

    /// The buffer has the length the geometry gives, every pixel of the
    /// screen lies in it, and the pixel drawer matches the format.
    #[verifier::type_invariant]
    closed spec fn wf(&self) -> bool {
        &&& self.buffer@.len() == self.info.byte_len
        &&& layout_fits(self.info, self.buffer@.len() as int)
        &&& self.pixel_drawer.handles() == self.info.pixel_format
    }

    pub fn new(buffer: &'a mut [u8], info: FrameBufferInfo) -> (r: Self)
        requires
            old(buffer)@.len() == info.byte_len,
            info.horizontal_resolution > 0 && info.vertical_resolution > 0 ==> pixel_offset(
                info,
                info.horizontal_resolution - 1,
                info.vertical_resolution - 1,
            ) + pixel_bytes(info.pixel_format) <= info.byte_len,
        ensures
            r.pixels() == old(buffer)@,
            r.frame_info() == info,
    {
        proof {
            assert forall|x: int, y: int| on_screen(info, x, y) implies #[trigger] pixel_offset(info, x, y)
                + pixel_bytes(info.pixel_format) <= info.byte_len by {
                let xm = info.horizontal_resolution - 1;
                let ym = info.vertical_resolution - 1;
                let s = info.stride as int;
                let b = info.bytes_per_pixel as int;
                assert(y * s <= ym * s) by (nonlinear_arith)
                    requires 0 <= y <= ym, 0 <= s;
                assert(x * b <= xm * b) by (nonlinear_arith)
                    requires 0 <= x <= xm, 0 <= b;
            }
        }
        let pixel_drawer = select_pixel_drawer(info.pixel_format);
        Self { buffer, info, pixel_drawer }
    }

    /// The geometry of the framebuffer; the buffer has the length it gives
    /// and every pixel of the screen lies in it.
    pub fn info(&self) -> (r: FrameBufferInfo)
        ensures
            r == self.frame_info(),
            self.pixels().len() == r.byte_len,
            layout_fits(r, self.pixels().len() as int),
    {
        proof {
            use_type_invariant(self);
        }
        self.info
    }

    pub fn x_range(&self) -> (r: core::ops::Range<usize>)
        ensures
            r.start == 0,
            r.end == self.frame_info().horizontal_resolution,
    {
        0..self.info().horizontal_resolution
    }

    pub fn y_range(&self) -> (r: core::ops::Range<usize>)
        ensures
            r.start == 0,
            r.end == self.frame_info().vertical_resolution,
    {
        0..self.info().vertical_resolution
    }

    /// Where the bytes of the pixel at `point` start, if the point lies on
    /// the screen.
    pub fn pixel_index(&self, point: Point<i32>) -> (r: Option<usize>)
        ensures
            r == if on_screen(self.frame_info(), point.x as int, point.y as int) {
                Some(pixel_offset(self.frame_info(), point.x as int, point.y as int) as usize)
            } else {
                None::<usize>
            },
    {
        proof {
            use_type_invariant(self);
        }
        let info = self.info();
        if point.x < 0 || point.y < 0 {
            return None;
        }
        let x = point.x as usize;
        let y = point.y as usize;
        let xr = self.x_range();
        let yr = self.y_range();
        if !(xr.start <= x && x < xr.end) || !(yr.start <= y && y < yr.end) {
            return None;
        }
        proof {
            assert(pixel_offset(info, x as int, y as int) + pixel_bytes(info.pixel_format) <= self.buffer@.len());
            assert(0 <= y * info.stride) by (nonlinear_arith);
            assert(0 <= x * info.bytes_per_pixel) by (nonlinear_arith);
        }
        Some((y * info.stride) + (x * info.bytes_per_pixel))
    }

    /// Draws the point in `color` when it lies on the screen; tells
    /// whether a pixel was written.
    pub fn draw(&mut self, point: Point<i32>, color: Color) -> (r: bool)
        ensures
            final(self).frame_info() == old(self).frame_info(),
            final(self).pixels() == paint(old(self).pixels(), old(self).frame_info(), point, color),
            r == (on_screen(old(self).frame_info(), point.x as int, point.y as int)
                && old(self).frame_info().pixel_format != PixelFormat::Other),
    {
        proof {
            use_type_invariant(&*self);
        }
        let pixel_index = match self.pixel_index(point) {
            Some(i) => i,
            None => return false,
        };
        proof {
            assert(pixel_offset(self.info, point.x as int, point.y as int) + pixel_bytes(self.info.pixel_format)
                <= self.buffer@.len());
        }
        match &self.pixel_drawer {
            PixelDrawer::Rgb(d) => d.pixel_draw(&mut *self.buffer, pixel_index, color),
            PixelDrawer::Bgr(d) => d.pixel_draw(&mut *self.buffer, pixel_index, color),
            PixelDrawer::U8(d) => d.pixel_draw(&mut *self.buffer, pixel_index, color),
            PixelDrawer::Unsupported(d) => d.pixel_draw(&mut *self.buffer, pixel_index, color),
        }
    }
}

/// The points of a rectangle in the order `Rectangle::points` gives them:
/// column by column, and top to bottom in each column.
pub open spec fn rect_points(rect: Rectangle<i32>) -> Seq<Point<i32>> {
    let h = rect.rows();
    Seq::new(
        (rect.columns() * h) as nat,
        |k: int| Point { x: (rect.pos.x + k / h) as i32, y: (rect.pos.y + k % h) as i32 },
    )
}

/// The points of a rectangle are exactly the points it contains.
pub proof fn lemma_rect_points_are_contained_points(rect: Rectangle<i32>, q: Point<i32>)
    requires
        rect.edges_representable(),
    ensures
        forall|k: int| 0 <= k < rect_points(rect).len() ==> rect.spec_contains(#[trigger] rect_points(rect)[k]),
        rect.spec_contains(q) ==> exists|k: int| 0 <= k < rect_points(rect).len() && #[trigger] rect_points(rect)[k] == q,
{
    let w = rect.columns();
    let h = rect.rows();
    assert forall|k: int| 0 <= k < rect_points(rect).len() implies rect.spec_contains(#[trigger] rect_points(rect)[k]) by {
        assert(h > 0) by (nonlinear_arith)
            requires 0 <= k < w * h, 0 <= w, 0 <= h;
        vstd::arithmetic::div_mod::lemma_fundamental_div_mod(k, h);
        assert(0 <= k / h < w) by (nonlinear_arith)
            requires k == h * (k / h) + k % h, 0 <= k % h < h, 0 <= k < w * h, h > 0;
    }
    if rect.spec_contains(q) {
        let i = q.x - rect.pos.x;
        let j = q.y - rect.pos.y;
        let k = i * h + j;
        assert(0 <= k < w * h) by (nonlinear_arith)
            requires 0 <= i < w, 0 <= j < h, k == i * h + j;
        vstd::arithmetic::div_mod::lemma_fundamental_div_mod(k, h);
        assert(k / h == i && k % h == j) by {
            vstd::arithmetic::div_mod::lemma_fundamental_div_mod_converse(k, h, i, j);
        }
        assert(rect_points(rect)[k] == q);
    }
}

/// Drawing a point changes the bytes of its pixel and no other byte; a
/// point off the screen changes nothing.
pub proof fn lemma_paint_is_local(buf: Seq<u8>, info: FrameBufferInfo, p: Point<i32>, c: Color, i: int)
    requires
        layout_fits(info, buf.len() as int),
        0 <= i < buf.len(),
    ensures
        paint(buf, info, p, c).len() == buf.len(),
        !(on_screen(info, p.x as int, p.y as int) && pixel_offset(info, p.x as int, p.y as int) <= i
            < pixel_offset(info, p.x as int, p.y as int) + pixel_bytes(info.pixel_format))
            ==> paint(buf, info, p, c)[i] == buf[i],
{
    if on_screen(info, p.x as int, p.y as int) {
        assert(pixel_offset(info, p.x as int, p.y as int) + pixel_bytes(info.pixel_format) <= buf.len());
    }
}

/// The points `Draw::draw_rect` draws, in order: for each column, the
/// top and the bottom point; then for each row, the left and the right point.
pub open spec fn outline_points(rect: Rectangle<i32>) -> Seq<Point<i32>> {
    if rect.size.x == 0 || rect.size.y == 0 {
        Seq::empty()
    } else {
        Seq::new(
            (2 * rect.columns()) as nat,
            |k: int|
                Point {
                    x: (rect.pos.x + k / 2) as i32,
                    y: if k % 2 == 0 { rect.pos.y } else { (rect.bottom() - 1) as i32 },
                },
        ) + Seq::new(
            (2 * rect.rows()) as nat,
            |k: int|
                Point {
                    x: if k % 2 == 0 { rect.pos.x } else { (rect.right() - 1) as i32 },
                    y: (rect.pos.y + k / 2) as i32,
                },
        )
    }
}

/// A point lies on the border of a rectangle: inside it, and in its first
/// or last column or its first or last row.
pub open spec fn on_border(rect: Rectangle<i32>, q: Point<i32>) -> bool {
    &&& rect.spec_contains(q)
    &&& (q.x == rect.pos.x || q.x == rect.right() - 1 || q.y == rect.pos.y || q.y == rect.bottom() - 1)
}

/// The points `draw_rect` draws for a rectangle of positive size are
/// exactly the points of its border.
pub proof fn lemma_outline_is_border(rect: Rectangle<i32>, q: Point<i32>)
    requires
        rect.edges_representable(),
        rect.size.x > 0,
        rect.size.y > 0,
    ensures
        outline_points(rect).contains(q) <==> on_border(rect, q),
{
    let o = outline_points(rect);
    let w = rect.columns();
    let h = rect.rows();
    assert(w == rect.size.x && h == rect.size.y);
    assert(o.len() == 2 * w + 2 * h);
    if o.contains(q) {
        let k = choose|k: int| 0 <= k < o.len() && o[k] == q;
        if k < 2 * w {
            assert(o[k] == Point { x: (rect.pos.x + k / 2) as i32, y: if k % 2 == 0 { rect.pos.y } else { (rect.bottom() - 1) as i32 } });
        } else {
            let j = k - 2 * w;
            assert(o[k] == Point { x: if j % 2 == 0 { rect.pos.x } else { (rect.right() - 1) as i32 }, y: (rect.pos.y + j / 2) as i32 });
        }
    }
    if on_border(rect, q) {
        let k: int = if q.y == rect.pos.y {
            2 * (q.x - rect.pos.x)
        } else if q.y == rect.bottom() - 1 {
            2 * (q.x - rect.pos.x) + 1
        } else if q.x == rect.pos.x {
            2 * w + 2 * (q.y - rect.pos.y)
        } else {
            2 * w + 2 * (q.y - rect.pos.y) + 1
        };
        assert(0 <= k < o.len());
        assert(o[k] == q);
    }
}

/// The points `Rectangle::points` returns for an `i32` rectangle are `rect_points`.
pub proof fn lemma_points_are_rect_points(rect: Rectangle<i32>, v: Seq<Point<i32>>)
    requires
        rect.edges_representable(),
        v.len() == rect.columns() * rect.rows(),
        forall|i: int, j: int|
            0 <= i < rect.columns() && 0 <= j < rect.rows() ==> {
                &&& (#[trigger] v[i * rect.rows() + j]).x as int == rect.pos.x + i
                &&& v[i * rect.rows() + j].y as int == rect.pos.y + j
            },
    ensures
        v == rect_points(rect),
{
    let w = rect.columns();
    let h = rect.rows();
    assert forall|k: int| 0 <= k < v.len() implies v[k] == rect_points(rect)[k] by {
        assert(h > 0) by (nonlinear_arith)
            requires 0 <= k < w * h, 0 <= w, 0 <= h;
        let i = k / h;
        let j = k % h;
        vstd::arithmetic::div_mod::lemma_fundamental_div_mod(k, h);
        assert(k == i * h + j) by (nonlinear_arith)
            requires k == h * (k / h) + k % h, i == k / h, j == k % h;
        assert(0 <= j < h);
        assert(0 <= i < w) by (nonlinear_arith)
            requires k == i * h + j, 0 <= j < h, 0 <= k < w * h, h > 0;
        assert(v[i * h + j].x as int == rect.pos.x + i);
    }
    assert(v =~= rect_points(rect));
}

/// Unfolding `paint_all` over a sequence with one more point.
pub proof fn lemma_paint_all_push(buf: Seq<u8>, info: FrameBufferInfo, pts: Seq<Point<i32>>, p: Point<i32>, c: Color)
    ensures
        paint_all(buf, info, pts.push(p), c) == paint(paint_all(buf, info, pts, c), info, p, c),
{
    assert(pts.push(p).drop_last() =~= pts);
}

impl<'a> Drawer<'a> {
    /// The whole screen, as a rectangle of `i32` coordinates.
    pub fn area(&self) -> (r: Rectangle<i32>)
        ensures
            r.pos.x == 0 && r.pos.y == 0,
            r.size.x == self.frame_info().horizontal_resolution as i32,
            r.size.y == self.frame_info().vertical_resolution as i32,
    {
        Rectangle::new(
            Point::new(0, 0),
            Size::new(self.info.horizontal_resolution as i32, self.info.vertical_resolution as i32),
        )
    }

    /// Draws the point when it lies on the screen, and fails with
    /// `PointOutArea` when it does not.
    pub fn try_draw(&mut self, p: Point<i32>, c: Color) -> (res: Result<(), DrawError>)
        ensures
            final(self).frame_info() == old(self).frame_info(),
            final(self).pixels() == paint(old(self).pixels(), old(self).frame_info(), p, c),
            res is Ok <==> on_screen(old(self).frame_info(), p.x as int, p.y as int),
            res is Err ==> res->Err_0 == DrawError::PointOutArea(p),
    {
        match self.pixel_index(p) {
            None => Err(DrawError::PointOutArea(p)),
            Some(_) => {
                self.draw(p, c);
                Ok(())
            },
        }
    }
}

impl<'a> Drawer<'a> {
    /// Draws every point of the rectangle.
    pub fn fill_rect(&mut self, rect: Rectangle<i32>, c: Color)
        requires
            rect.edges_representable(),
        ensures
            final(self).frame_info() == old(self).frame_info(),
            final(self).pixels() == paint_all(old(self).pixels(), old(self).frame_info(), rect_points(rect), c),
    {
        let points = rect.points();
        proof {
            lemma_points_are_rect_points(rect, points@);
        }
        let mut k: usize = 0;
        while k < points.len()
            invariant
                k <= points.len(),
                points@ == rect_points(rect),
                self.frame_info() == old(self).frame_info(),
                self.pixels() == paint_all(old(self).pixels(), old(self).frame_info(), points@.take(k as int), c),
            decreases points.len() - k,
        {
            let p = points[k];
            self.draw(p, c);
            proof {
                assert(points@.take(k as int + 1) =~= points@.take(k as int).push(p));
                lemma_paint_all_push(old(self).pixels(), old(self).frame_info(), points@.take(k as int), p, c);
            }
            k = k + 1;
        }
        proof {
            assert(points@.take(points.len() as int) =~= points@);
        }
    }

    /// Draws the border of the rectangle: the top and bottom edge column by
    /// column, then the left and right edge row by row. A rectangle with no
    /// width or no height draws nothing.
    pub fn draw_rect(&mut self, rect: Rectangle<i32>, c: Color)
        requires
            rect.size.x != 0 && rect.size.y != 0 ==> {
                &&& rect.edges_representable()
                &&& rect.columns() > 0 ==> rect.bottom() > i32::MIN
                &&& rect.rows() > 0 ==> rect.right() > i32::MIN
            },
        ensures
            final(self).frame_info() == old(self).frame_info(),
            final(self).pixels() == paint_all(old(self).pixels(), old(self).frame_info(), outline_points(rect), c),
    {
        if rect.size.x == 0 || rect.size.y == 0 {
            return;
        }
        let ghost outline = outline_points(rect);
        let ghost w = rect.columns();
        let ghost h = rect.rows();
        let ghost info = old(self).frame_info();
        let ghost start = old(self).pixels();
        let xr = rect.x_range();
        let mut x = xr.start;
        while x < xr.end
            invariant
                rect.size.x != 0 && rect.size.y != 0,
                rect.edges_representable(),
                rect.columns() > 0 ==> rect.bottom() > i32::MIN,
                outline == outline_points(rect),
                w == rect.columns(),
                h == rect.rows(),
                info == old(self).frame_info(),
                start == old(self).pixels(),
                xr.start == rect.pos.x,
                xr.end as int == rect.right(),
                rect.pos.x <= x,
                x <= xr.end || x == rect.pos.x,
                self.frame_info() == info,
                self.pixels() == paint_all(start, info, outline.take(2 * (x - rect.pos.x)), c),
            decreases rect.right() - x,
        {
            let ghost i = x - rect.pos.x;
            let top = Point::new(x, rect.y_start());
            let bottom = Point::new(x, rect.y_end() - 1);
            self.draw(top, c);
            self.draw(bottom, c);
            proof {
                assert(outline[2 * i] == top);
                assert(outline[2 * i + 1] == bottom);
                assert(outline.take(2 * i + 1) =~= outline.take(2 * i).push(top));
                assert(outline.take(2 * i + 2) =~= outline.take(2 * i + 1).push(bottom));
                lemma_paint_all_push(start, info, outline.take(2 * i), top, c);
                lemma_paint_all_push(start, info, outline.take(2 * i + 1), bottom, c);
            }
            x = x + 1;
        }
        let ghost cols = 2 * w;
        proof {
            assert(2 * (x - rect.pos.x) == cols);
        }
        let yr = rect.y_range();
        let mut y = yr.start;
        while y < yr.end
            invariant
                rect.size.x != 0 && rect.size.y != 0,
                rect.edges_representable(),
                rect.rows() > 0 ==> rect.right() > i32::MIN,
                outline == outline_points(rect),
                w == rect.columns(),
                h == rect.rows(),
                cols == 2 * w,
                info == old(self).frame_info(),
                start == old(self).pixels(),
                yr.start == rect.pos.y,
                yr.end as int == rect.bottom(),
                rect.pos.y <= y,
                y <= yr.end || y == rect.pos.y,
                self.frame_info() == info,
                self.pixels() == paint_all(start, info, outline.take(cols + 2 * (y - rect.pos.y)), c),
            decreases rect.bottom() - y,
        {
            let ghost j = y - rect.pos.y;
            let left = Point::new(rect.x_start(), y);
            let right = Point::new(rect.x_end() - 1, y);
            self.draw(left, c);
            self.draw(right, c);
            proof {
                assert(outline[cols + 2 * j] == left);
                assert(outline[cols + 2 * j + 1] == right);
                assert(outline.take(cols + 2 * j + 1) =~= outline.take(cols + 2 * j).push(left));
                assert(outline.take(cols + 2 * j + 2) =~= outline.take(cols + 2 * j + 1).push(right));
                lemma_paint_all_push(start, info, outline.take(cols + 2 * j), left, c);
                lemma_paint_all_push(start, info, outline.take(cols + 2 * j + 1), right, c);
            }
            y = y + 1;
        }
        proof {
            assert(outline.take(cols + 2 * (y - rect.pos.y)) =~= outline);
        }
    }
}

} // verus!
