use vstd::prelude::*;
use crate::boot_info::FrameBufferInfo;
use crate::font::{byte_of, char_to_byte, draw_byte_string, paint_bytes};
use crate::framebuffer::{paint_all, rect_points, Drawer};
use crate::graphics::{max_int, min_int, Color, Point, Rectangle, Size};

verus! {

/// The number of text rows of the console.
pub const ROWS: usize = 25;

/// The number of text columns of the console.
pub const COLUMNS: usize = 80;

/// What a console holds: its cells row by row, and the cursor.
pub struct ConsoleModel {
    pub cells: Seq<u8>,
    pub cursor: Point<usize>,
}

/// The part of the console that must be drawn again after a write.
#[derive(Debug, Clone, Copy, PartialEq, Eq, Structural)]
pub struct RedrawArea {
    pub area: Rectangle<usize>,
    pub fill_bg: bool,
}

/// A redraw area with nothing in it.
pub open spec fn empty_redraw() -> RedrawArea {
    RedrawArea {
        area: Rectangle { pos: Point { x: 0, y: 0 }, size: Size { x: 0, y: 0 } },
        fill_bg: false,
    }
}

/// The redraw area once the cell at `p` is in it: the cell alone when the
/// area was empty, else the area stretched to reach `p`.
pub open spec fn with_point(rd: RedrawArea, p: Point<usize>) -> RedrawArea {
    if rd.area.size.x == 0 || rd.area.size.y == 0 {
        RedrawArea { area: Rectangle { pos: p, size: Size { x: 1, y: 1 } }, fill_bg: rd.fill_bg }
    } else {
        let a = rd.area;
        let xs = min_int(p.x as int, a.pos.x as int);
        let ys = min_int(p.y as int, a.pos.y as int);
        let xe = max_int(p.x as int, a.pos.x + a.size.x);
        let ye = max_int(p.y as int, a.pos.y + a.size.y);
        RedrawArea {
            area: Rectangle {
                pos: Point { x: xs as usize, y: ys as usize },
                size: Size { x: (xe - xs) as usize, y: (ye - ys) as usize },
            },
            fill_bg: rd.fill_bg,
        }
    }
}

/// The whole console, to be drawn on a cleared background.
pub open spec fn whole_console() -> RedrawArea {
    RedrawArea {
        area: Rectangle { pos: Point { x: 0, y: 0 }, size: Size { x: COLUMNS, y: ROWS } },
        fill_bg: true,
    }
}

/// The cells after every row moves up by one and the last row is cleared.
pub open spec fn scrolled(cells: Seq<u8>) -> Seq<u8> {
    Seq::new(
        (ROWS * COLUMNS) as nat,
        |i: int|
            if i < (ROWS - 1) * COLUMNS {
                cells[i + COLUMNS]
            } else {
                0u8
            },
    )
}

/// The console and redraw area after a line break: the cursor goes to the
/// start of the next row; on the last row the text scrolls up instead and
/// the whole console is to be redrawn.
pub open spec fn after_newline(m: ConsoleModel, rd: RedrawArea) -> (ConsoleModel, RedrawArea) {
    if m.cursor.y < ROWS - 1 {
        (ConsoleModel { cells: m.cells, cursor: Point { x: 0, y: (m.cursor.y + 1) as usize } }, rd)
    } else {
        (ConsoleModel { cells: scrolled(m.cells), cursor: Point { x: 0, y: m.cursor.y } }, whole_console())
    }
}

/// The console and redraw area after one character is written: a line
/// feed breaks the line; any other character is stored at the cursor,
/// which moves right, unless the cursor stands in the last column, where
/// the character is dropped.
pub open spec fn after_char(m: ConsoleModel, rd: RedrawArea, ch: char) -> (ConsoleModel, RedrawArea) {
    let b = byte_of(ch);
    if b == 10u8 {
        after_newline(m, rd)
    } else if m.cursor.x < COLUMNS - 1 {
        (
            ConsoleModel {
                cells: m.cells.update(m.cursor.y * COLUMNS + m.cursor.x, b),
                cursor: Point { x: (m.cursor.x + 1) as usize, y: m.cursor.y },
            },
            with_point(rd, m.cursor),
        )
    } else {
        (m, rd)
    }
}

/// The console and redraw area after the characters are written in order.
pub open spec fn after_chars(m: ConsoleModel, rd: RedrawArea, chars: Seq<char>) -> (ConsoleModel, RedrawArea)
    decreases chars.len(),
{
    if chars.len() == 0 {
        (m, rd)
    } else {
        let (m1, rd1) = after_chars(m, rd, chars.drop_last());
        after_char(m1, rd1, chars.last())
    }
}

/// Writing never moves the cursor off the console nor changes how many
/// cells it has: from any state with the cursor on the console, every
/// string leaves it there.
pub proof fn lemma_cursor_stays_on_console(m: ConsoleModel, rd: RedrawArea, chars: Seq<char>)
    requires
        m.cells.len() == ROWS * COLUMNS,
        m.cursor.x < COLUMNS,
        m.cursor.y < ROWS,
    ensures
        after_chars(m, rd, chars).0.cells.len() == ROWS * COLUMNS,
        after_chars(m, rd, chars).0.cursor.x < COLUMNS,
        after_chars(m, rd, chars).0.cursor.y < ROWS,
    decreases chars.len(),
{
    if chars.len() > 0 {
        lemma_cursor_stays_on_console(m, rd, chars.drop_last());
    }
}

/// A line feed on the last row moves every row up by one and clears the
/// last row.
pub proof fn lemma_newline_on_last_row_scrolls(m: ConsoleModel, rd: RedrawArea, x: int, y: int)
    requires
        m.cells.len() == ROWS * COLUMNS,
        m.cursor.y == ROWS - 1,
        0 <= x < COLUMNS,
        0 <= y < ROWS,
    ensures
        after_newline(m, rd).0.cells[y * COLUMNS + x] == if y < ROWS - 1 {
            m.cells[(y + 1) * COLUMNS + x]
        } else {
            0u8
        },
        after_newline(m, rd).1 == whole_console(),
{
}

/// A write that scrolls the console asks for the whole console to be
/// redrawn on a cleared background: once the background is to be cleared,
/// later characters keep the area at the whole console.
pub proof fn lemma_scroll_redraws_whole_console(m: ConsoleModel, rd: RedrawArea, chars: Seq<char>)
    requires
        m.cells.len() == ROWS * COLUMNS,
        m.cursor.x < COLUMNS,
        m.cursor.y < ROWS,
        rd.fill_bg ==> rd == whole_console(),
    ensures
        after_chars(m, rd, chars).1.fill_bg ==> after_chars(m, rd, chars).1 == whole_console(),
    decreases chars.len(),
{
    if chars.len() > 0 {
        let p = chars.drop_last();
        lemma_scroll_redraws_whole_console(m, rd, p);
        lemma_cursor_stays_on_console(m, rd, p);
    }
}

impl RedrawArea {
    /// The area lies inside the console.
    pub open spec fn within_console(self) -> bool {
        &&& self.area.pos.x + self.area.size.x <= COLUMNS
        &&& self.area.pos.y + self.area.size.y <= ROWS
    }

    pub fn new() -> (r: Self)
        ensures
            r == empty_redraw(),
    {
        Self { area: Rectangle { pos: Point::new(0, 0), size: Point::new(0, 0) }, fill_bg: false }
    }

    /// Puts the cell at `p` into the area.
    pub fn add(&mut self, p: Point<usize>)
        requires
            old(self).area.size.x != 0 && old(self).area.size.y != 0 ==> old(self).area.edges_representable(),
        ensures
            *final(self) == with_point(*old(self), p),
    {
        if self.area.size.x == 0 || self.area.size.y == 0 {
            self.area.pos = p;
            self.area.size = Size::new(1, 1);
            return;
        }
        self.area = self.area.extend_to_contain(p);
    }
}

/// A text console of `ROWS` by `COLUMNS` cells.
pub struct Console {
    fg_color: Color,
    bg_color: Color,
    buffer: Vec<u8>,
    cursor: Point<usize>,
}

impl Console {
    #[verifier::type_invariant]
    closed spec fn wf(&self) -> bool {
        &&& self.buffer.len() == ROWS * COLUMNS
        &&& self.cursor.x < COLUMNS
        &&& self.cursor.y < ROWS
    }

    /// The cells and the cursor.
    pub closed spec fn model(&self) -> ConsoleModel {
        ConsoleModel { cells: self.buffer@, cursor: self.cursor }
    }

    /// The text color.
    pub closed spec fn fg(&self) -> Color {
        self.fg_color
    }

    /// The background color.
    pub closed spec fn bg(&self) -> Color {
        self.bg_color
    }

    /// An empty console with the cursor at the top left.
    pub fn new(fg_color: Color, bg_color: Color) -> (r: Self)
        ensures
            r.model().cells == Seq::new((ROWS * COLUMNS) as nat, |i: int| 0u8),
            r.model().cursor.x == 0,
            r.model().cursor.y == 0,
            r.fg() == fg_color,
            r.bg() == bg_color,
    {
        let buffer = vec![0u8; ROWS * COLUMNS];
        let r = Console { fg_color, bg_color, buffer, cursor: Point::new(0, 0) };
        assert(r.buffer@ =~= Seq::new((ROWS * COLUMNS) as nat, |i: int| 0u8));
        r
    }

    /// The text color.
    pub fn fg_color(&self) -> (c: Color)
        ensures
            c == self.fg(),
    {
        self.fg_color
    }

    /// The background color.
    pub fn bg_color(&self) -> (c: Color)
        ensures
            c == self.bg(),
    {
        self.bg_color
    }

    /// The cell at column `x` of row `y`.
    pub fn cell(&self, x: usize, y: usize) -> (b: u8)
        requires
            x < COLUMNS,
            y < ROWS,
        ensures
            b == self.model().cells[y * COLUMNS + x],
    {
        proof {
            use_type_invariant(self);
        }
        self.buffer[y * COLUMNS + x]
    }

    /// Breaks the line: the cursor goes to the start of the next row; on the
    /// last row every row moves up by one, the last row is cleared and the
    /// whole console is marked for redrawing on a cleared background.
    pub fn newline(&mut self, redraw: &mut RedrawArea)
        ensures
            (final(self).model(), *final(redraw)) == after_newline(old(self).model(), *old(redraw)),
            final(self).fg() == old(self).fg(),
            final(self).bg() == old(self).bg(),
    {
        proof {
            use_type_invariant(&*self);
        }
        self.cursor.x = 0;
        if self.cursor.y < ROWS - 1 {
            self.cursor.y = self.cursor.y + 1;
            return;
        }
        let ghost before = self.buffer@;
        let mut i: usize = 0;
        while i < (ROWS - 1) * COLUMNS
            invariant
                self.buffer@.len() == ROWS * COLUMNS,
                self.cursor.x == 0,
                self.cursor.y == old(self).cursor.y,
                self.cursor.y < ROWS,
                self.fg_color == old(self).fg_color,
                self.bg_color == old(self).bg_color,
                before.len() == ROWS * COLUMNS,
                i <= (ROWS - 1) * COLUMNS,
                forall|k: int| 0 <= k < i ==> #[trigger] self.buffer@[k] == before[k + COLUMNS],
                forall|k: int| i <= k < ROWS * COLUMNS ==> #[trigger] self.buffer@[k] == before[k],
            decreases (ROWS - 1) * COLUMNS - i,
        {
            let moved = self.buffer[i + COLUMNS];
            self.buffer[i] = moved;
            i = i + 1;
        }
        while i < ROWS * COLUMNS
            invariant
                self.buffer@.len() == ROWS * COLUMNS,
                self.cursor.x == 0,
                self.cursor.y == old(self).cursor.y,
                self.cursor.y < ROWS,
                self.fg_color == old(self).fg_color,
                self.bg_color == old(self).bg_color,
                before.len() == ROWS * COLUMNS,
                (ROWS - 1) * COLUMNS <= i <= ROWS * COLUMNS,
                forall|k: int| 0 <= k < (ROWS - 1) * COLUMNS ==> #[trigger] self.buffer@[k] == before[k + COLUMNS],
                forall|k: int| (ROWS - 1) * COLUMNS <= k < i ==> #[trigger] self.buffer@[k] == 0u8,
            decreases ROWS * COLUMNS - i,
        {
            self.buffer[i] = 0;
            i = i + 1;
        }
        assert(self.buffer@ =~= scrolled(before));
        redraw.fill_bg = true;
        redraw.area = Rectangle { pos: Point::new(0, 0), size: Size::new(COLUMNS, ROWS) };
    }

    /// Writes the characters at the cursor, as `after_chars` tells, and
    /// gives the part of the console that must be drawn again.
    pub fn write_str(&mut self, s: &str) -> (redraw: RedrawArea)
        ensures
            (final(self).model(), redraw) == after_chars(old(self).model(), empty_redraw(), s@),
            redraw.within_console(),
            final(self).fg() == old(self).fg(),
            final(self).bg() == old(self).bg(),
    {
        broadcast use vstd::string::axiom_spec_iter;

        let mut redraw = RedrawArea::new();
        let ghost m0 = self.model();
        for ch in it: s.chars()
            invariant
                it.seq() == s@,
                (self.model(), redraw) == after_chars(m0, empty_redraw(), s@.take(it.index())),
                redraw.within_console(),
                self.fg() == old(self).fg(),
                self.bg() == old(self).bg(),
        {
            proof {
                use_type_invariant(&*self);
                assert(s@.take(it.index() + 1).drop_last() =~= s@.take(it.index()));
            }
            let byte = char_to_byte(ch);
            if byte == 10u8 {
                self.newline(&mut redraw);
            } else if self.cursor.x < COLUMNS - 1 {
                redraw.add(self.cursor);
                self.buffer[self.cursor.y * COLUMNS + self.cursor.x] = byte;
                self.cursor.x = self.cursor.x + 1;
            }
        }
        proof {
            assert(s@.take(s@.len() as int) =~= s@);
        }
        redraw
    }
}

/// The screen position of a console cell, or the screen size of a
/// console extent: one glyph cell of 8 by 16 pixels per cell.
pub open spec fn draw_point_of(p: Point<usize>) -> Point<i32> {
    Point { x: (p.x * 8) as i32, y: (p.y * 16) as i32 }
}

/// The screen rectangle of a console rectangle.
pub open spec fn draw_rect_of(r: Rectangle<usize>) -> Rectangle<i32> {
    Rectangle { pos: draw_point_of(r.pos), size: draw_point_of(r.size) }
}

/// The buffer after the first `n` rows of `area` are drawn from the cells:
/// for each row, the cells of the area's columns, side by side.
pub open spec fn paint_console_rows(
    buf: Seq<u8>,
    info: FrameBufferInfo,
    area: Rectangle<usize>,
    cells: Seq<u8>,
    fg: Color,
    font: Seq<[u8; 16]>,
    n: int,
) -> Seq<u8>
    decreases n,
{
    if n <= 0 {
        buf
    } else {
        let y = area.pos.y + n - 1;
        let before = paint_console_rows(buf, info, area, cells, fg, font, n - 1);
        let start = y * COLUMNS + area.pos.x;
        paint_bytes(
            before,
            info,
            draw_point_of(Point { x: area.pos.x, y: y as usize }),
            cells.subrange(start, start + area.size.x),
            font,
            fg,
            area.size.x as int,
        )
    }
}

/// Drawing the rows of an area draws nothing for no rows, and for `n`
/// rows draws the first `n - 1`, then row `area.pos.y + n - 1`: that row's
/// cells in the area's columns, as glyphs from screen position
/// `(8 * area.pos.x, 16 * (area.pos.y + n - 1))`.
pub proof fn lemma_rows_are_drawn_top_down(
    buf: Seq<u8>,
    info: FrameBufferInfo,
    area: Rectangle<usize>,
    cells: Seq<u8>,
    fg: Color,
    font: Seq<[u8; 16]>,
    n: int,
)
    requires
        0 < n,
        area.pos.y + n <= usize::MAX,
    ensures
        paint_console_rows(buf, info, area, cells, fg, font, 0) == buf,
        paint_console_rows(buf, info, area, cells, fg, font, n) == paint_bytes(
            paint_console_rows(buf, info, area, cells, fg, font, n - 1),
            info,
            Point { x: (area.pos.x * 8) as i32, y: ((area.pos.y + n - 1) * 16) as i32 },
            cells.subrange(
                (area.pos.y + n - 1) * COLUMNS + area.pos.x,
                (area.pos.y + n - 1) * COLUMNS + area.pos.x + area.size.x,
            ),
            font,
            fg,
            area.size.x as int,
        ),
{
}

/// The buffer after a redraw area is drawn: the area cleared to `bg` when
/// asked, as `Drawer::fill_rect` leaves it (`paint_all` over `rect_points`),
/// then its rows from top to bottom, each as `draw_byte_string` leaves it
/// (`paint_bytes` of the row's cells at the row's screen position).
pub open spec fn paint_redraw(
    buf: Seq<u8>,
    info: FrameBufferInfo,
    rd: RedrawArea,
    cells: Seq<u8>,
    fg: Color,
    bg: Color,
    font: Seq<[u8; 16]>,
) -> Seq<u8> {
    let filled = if rd.fill_bg {
        paint_all(buf, info, rect_points(draw_rect_of(rd.area)), bg)
    } else {
        buf
    };
    paint_console_rows(filled, info, rd.area, cells, fg, font, rd.area.size.y as int)
}

/// Writes text to a console and draws what changed.
pub struct ConsoleWriter<'d, 'f, 'c, 'g> {
    drawer: &'d mut Drawer<'f>,
    console: &'c mut Console,
    font: &'g [[u8; 16]],
}

impl Console {
    /// A writer that draws this console with `drawer` and the glyphs of `font`.
    pub fn create_writer<'d, 'f, 'c, 'g>(
        &'c mut self,
        drawer: &'d mut Drawer<'f>,
        font: &'g [[u8; 16]],
    ) -> (w: ConsoleWriter<'d, 'f, 'c, 'g>)
        requires
            font.len() == 256,
        ensures
            w.console_model() == old(self).model(),
            w.console_fg() == old(self).fg(),
            w.console_bg() == old(self).bg(),
            w.drawer_pixels() == old(drawer).pixels(),
            w.drawer_info() == old(drawer).frame_info(),
            w.font_table() == font@,
            w.wf(),
    {
        ConsoleWriter { drawer, console: self, font }
    }
}

impl<'d, 'f, 'c, 'g> ConsoleWriter<'d, 'f, 'c, 'g> {
    pub closed spec fn console_model(&self) -> ConsoleModel {
        self.console.model()
    }

    pub closed spec fn console_fg(&self) -> Color {
        self.console.fg()
    }

    pub closed spec fn console_bg(&self) -> Color {
        self.console.bg()
    }

    pub closed spec fn drawer_pixels(&self) -> Seq<u8> {
        self.drawer.pixels()
    }

    pub closed spec fn drawer_info(&self) -> FrameBufferInfo {
        self.drawer.frame_info()
    }

    pub closed spec fn font_table(&self) -> Seq<[u8; 16]> {
        self.font@
    }

    /// The font has a glyph for every byte.
    pub closed spec fn wf(&self) -> bool {
        self.font@.len() == 256
    }

    /// The screen position of the console cell `p`.
    pub fn to_draw_point(&self, p: Point<usize>) -> (r: Point<i32>)
        requires
            p.x * 8 <= i32::MAX,
            p.y * 16 <= i32::MAX,
        ensures
            r == draw_point_of(p),
    {
        Point { x: (p.x as i32) * 8, y: (p.y as i32) * 16 }
    }

    /// The screen rectangle of a console rectangle.
    pub fn to_draw_rect(&self, rect: Rectangle<usize>) -> (r: Rectangle<i32>)
        requires
            rect.pos.x * 8 <= i32::MAX,
            rect.pos.y * 16 <= i32::MAX,
            rect.size.x * 8 <= i32::MAX,
            rect.size.y * 16 <= i32::MAX,
        ensures
            r == draw_rect_of(rect),
    {
        Rectangle { pos: self.to_draw_point(rect.pos), size: self.to_draw_point(rect.size) }
    }

    /// Writes the text to the console, then draws the part of it that
    /// changed: on a cleared background when the console scrolled.
    pub fn write_str(&mut self, s: &str)
        requires
            old(self).wf(),
        ensures
            final(self).wf(),
            final(self).font_table() == old(self).font_table(),
            final(self).console_fg() == old(self).console_fg(),
            final(self).console_bg() == old(self).console_bg(),
            final(self).drawer_info() == old(self).drawer_info(),
            ({
                let (m, rd) = after_chars(old(self).console_model(), empty_redraw(), s@);
                rd.fill_bg ==> final(self).drawer_pixels() == paint_console_rows(
                    paint_all(
                        old(self).drawer_pixels(),
                        old(self).drawer_info(),
                        rect_points(draw_rect_of(whole_console().area)),
                        old(self).console_bg(),
                    ),
                    old(self).drawer_info(),
                    whole_console().area,
                    m.cells,
                    old(self).console_fg(),
                    old(self).font_table(),
                    ROWS as int,
                )
            }),
            ({
                let (m, rd) = after_chars(old(self).console_model(), empty_redraw(), s@);
                &&& final(self).console_model() == m
                &&& final(self).drawer_pixels() == paint_redraw(
                    old(self).drawer_pixels(),
                    old(self).drawer_info(),
                    rd,
                    m.cells,
                    old(self).console_fg(),
                    old(self).console_bg(),
                    old(self).font_table(),
                )
            }),
    {
        proof {
            use_type_invariant(&*self.console);
            lemma_scroll_redraws_whole_console(self.console.model(), empty_redraw(), s@);
        }
        let redraw = self.console.write_str(s);
        let ghost m = self.console.model();
        let ghost cells = self.console.model().cells;
        let ghost info = self.drawer.frame_info();
        let ghost start = self.drawer.pixels();
        let fg = self.console.fg_color();
        let bg = self.console.bg_color();
        proof {
            use_type_invariant(&*self.console);
        }
        if redraw.fill_bg {
            let rect = self.to_draw_rect(redraw.area);
            self.drawer.fill_rect(rect, bg);
        }
        let ghost filled = self.drawer.pixels();
        assert(filled == if redraw.fill_bg {
            paint_all(start, info, rect_points(draw_rect_of(redraw.area)), bg)
        } else {
            start
        });
        let yr = redraw.area.y_range();
        let mut console_y = yr.start;
        while console_y < yr.end
            invariant
                redraw.within_console(),
                yr.start == redraw.area.pos.y,
                yr.end == redraw.area.pos.y + redraw.area.size.y,
                redraw.area.pos.y <= console_y <= yr.end,
                self.font@.len() == 256,
                self.font@ == old(self).font@,
                self.console.fg() == old(self).console.fg(),
                self.console.bg() == old(self).console.bg(),
                fg == self.console.fg(),
                self.console.model() == m,
                m.cells == cells,
                cells.len() == ROWS * COLUMNS,
                self.drawer.frame_info() == info,
                self.drawer.pixels() == paint_console_rows(
                    filled,
                    info,
                    redraw.area,
                    cells,
                    fg,
                    self.font@,
                    console_y - redraw.area.pos.y,
                ),
            decreases yr.end - console_y,
        {
            let xrange = redraw.area.x_range();
            let console_p = Point::new(redraw.area.x_start(), console_y);
            let row_start = console_y * COLUMNS + xrange.start;
            let row_end = console_y * COLUMNS + xrange.end;
            let bytes = vstd::slice::slice_subrange(self.console.buffer.as_slice(), row_start, row_end);
            let draw_p = self.to_draw_point(console_p);
            draw_byte_string(self.drawer, draw_p, bytes, fg, self.font);
            console_y = console_y + 1;
        }
    }
}

} // verus!
