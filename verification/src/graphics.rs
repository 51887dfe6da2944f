use vstd::prelude::*;
use crate::text::{hex2, push_bytes, push_hex2, push_signed_decimal, signed_decimal};
use vstd::string::StringSliceAdditionalSpecFns;

verus! {

/// An integer type usable as a screen or console coordinate.
///
/// The arithmetic a rectangle needs is exposed through methods whose
/// contracts are stated over the mathematical value of the coordinate.
pub trait Coordinate: Copy + Sized {
    /// The mathematical value of the coordinate.
    spec fn value(self) -> int;

    /// Whether an integer is representable in this type.
    spec fn representable(v: int) -> bool;

    proof fn lemma_representable(self)
        ensures
            Self::representable(self.value()),
    ;

    proof fn lemma_between(a: int, v: int, b: int)
        requires
            Self::representable(a),
            Self::representable(b),
            a <= v <= b,
        ensures
            Self::representable(v),
    ;

    /// A coordinate is determined by its value.
    proof fn lemma_value_injective(a: Self, b: Self)
        requires
            a.value() == b.value(),
        ensures
            a == b,
    ;

    fn zero() -> (r: Self)
        ensures
            r.value() == 0,
    ;

    fn one() -> (r: Self)
        ensures
            r.value() == 1,
    ;

    fn plus(self, other: Self) -> (r: Self)
        requires
            Self::representable(self.value() + other.value()),
        ensures
            r.value() == self.value() + other.value(),
    ;

    fn minus(self, other: Self) -> (r: Self)
        requires
            Self::representable(self.value() - other.value()),
        ensures
            r.value() == self.value() - other.value(),
    ;

    fn less_than(self, other: Self) -> (r: bool)
        ensures
            r == (self.value() < other.value()),
    ;
}

impl Coordinate for i32 {
    open spec fn value(self) -> int {
        self as int
    }

    open spec fn representable(v: int) -> bool {
        i32::MIN <= v <= i32::MAX
    }

    proof fn lemma_representable(self) {
    }

    proof fn lemma_between(a: int, v: int, b: int) {
    }

    proof fn lemma_value_injective(a: Self, b: Self) {
    }

    fn zero() -> (r: Self) {
        0
    }

    fn one() -> (r: Self) {
        1
    }

    fn plus(self, other: Self) -> (r: Self) {
        self + other
    }

    fn minus(self, other: Self) -> (r: Self) {
        self - other
    }

    fn less_than(self, other: Self) -> (r: bool) {
        self < other
    }
}

impl Coordinate for usize {
    open spec fn value(self) -> int {
        self as int
    }

    open spec fn representable(v: int) -> bool {
        0 <= v <= usize::MAX
    }

    proof fn lemma_representable(self) {
    }

    proof fn lemma_between(a: int, v: int, b: int) {
    }

    proof fn lemma_value_injective(a: Self, b: Self) {
    }

    fn zero() -> (r: Self) {
        0
    }

    fn one() -> (r: Self) {
        1
    }

    fn plus(self, other: Self) -> (r: Self) {
        self + other
    }

    fn minus(self, other: Self) -> (r: Self) {
        self - other
    }

    fn less_than(self, other: Self) -> (r: bool) {
        self < other
    }
}

/// A pair of coordinates.
#[derive(Debug, Clone, Copy, PartialEq, Eq, Structural)]
pub struct Vector2d<T> {
    pub x: T,
    pub y: T,
}

/// A point on a plane.
pub type Point<T> = Vector2d<T>;

/// The extent of a rectangle.
pub type Size<T> = Vector2d<T>;

impl<T> Vector2d<T> {
    pub fn new(x: T, y: T) -> (r: Self)
        ensures
            r.x == x,
            r.y == y,
    {
        Self { x, y }
    }
}

impl<T: Coordinate> Vector2d<T> {
    /// The sum of the two vectors can be computed without leaving the
    /// coordinate type.
    pub open spec fn sum_representable(self, rhs: Self) -> bool {
        &&& T::representable(self.x.value() + rhs.x.value())
        &&& T::representable(self.y.value() + rhs.y.value())
    }

    /// The componentwise sum.
    pub fn add(self, rhs: Self) -> (r: Self)
        requires
            self.sum_representable(rhs),
        ensures
            r.x.value() == self.x.value() + rhs.x.value(),
            r.y.value() == self.y.value() + rhs.y.value(),
    {
        Vector2d { x: self.x.plus(rhs.x), y: self.y.plus(rhs.y) }
    }

    /// Adds `rhs` componentwise.
    pub fn add_assign(&mut self, rhs: Self)
        requires
            old(self).sum_representable(rhs),
        ensures
            final(self).x.value() == old(self).x.value() + rhs.x.value(),
            final(self).y.value() == old(self).y.value() + rhs.y.value(),
    {
        self.x = self.x.plus(rhs.x);
        self.y = self.y.plus(rhs.y);
    }
}


/// An axis-aligned rectangle given by its corner and its extent.
#[derive(Debug, Clone, Copy, PartialEq, Eq, Structural)]
pub struct Rectangle<T> {
    pub pos: Point<T>,
    pub size: Size<T>,
}

impl<T> Rectangle<T> {
    pub fn new(pos: Point<T>, size: Size<T>) -> (r: Self)
        ensures
            r.pos == pos,
            r.size == size,
    {
        Self { pos, size }
    }
}

/// The smaller of two integers.
pub open spec fn min_int(a: int, b: int) -> int {
    if a <= b { a } else { b }
}

/// The larger of two integers.
pub open spec fn max_int(a: int, b: int) -> int {
    if a >= b { a } else { b }
}

fn min_coord<T: Coordinate>(a: T, b: T) -> (r: T)
    ensures
        r.value() == min_int(a.value(), b.value()),
        r == a || r == b,
{
    if b.less_than(a) { b } else { a }
}

fn max_coord<T: Coordinate>(a: T, b: T) -> (r: T)
    ensures
        r.value() == max_int(a.value(), b.value()),
        r == a || r == b,
{
    if a.less_than(b) { b } else { a }
}

/// `e` is `r` stretched to reach `p`: each lower edge is the smaller of
/// the point's coordinate and the rectangle's, each exclusive upper edge
/// the larger.
pub open spec fn extends_to<T: Coordinate>(r: Rectangle<T>, p: Point<T>, e: Rectangle<T>) -> bool {
    &&& e.pos.x.value() == min_int(p.x.value(), r.pos.x.value())
    &&& e.pos.y.value() == min_int(p.y.value(), r.pos.y.value())
    &&& e.right() == max_int(p.x.value(), r.right())
    &&& e.bottom() == max_int(p.y.value(), r.bottom())
}

/// Stretching a rectangle to reach a point keeps every point it contained,
/// and the point ends up inside it or on its right or bottom edge.
pub proof fn lemma_extend_keeps_contained_points<T: Coordinate>(
    r: Rectangle<T>,
    p: Point<T>,
    e: Rectangle<T>,
    q: Point<T>,
)
    requires
        extends_to(r, p, e),
    ensures
        r.spec_contains(q) ==> e.spec_contains(q),
        e.pos.x.value() <= p.x.value() <= e.right(),
        e.pos.y.value() <= p.y.value() <= e.bottom(),
{
}

/// Stretching a rectangle to reach a point it already contains gives the
/// same rectangle back.
pub proof fn lemma_extend_by_contained_point_is_identity<T: Coordinate>(
    r: Rectangle<T>,
    p: Point<T>,
    e: Rectangle<T>,
)
    requires
        extends_to(r, p, e),
        r.spec_contains(p),
    ensures
        e == r,
{
    T::lemma_value_injective(e.pos.x, r.pos.x);
    T::lemma_value_injective(e.pos.y, r.pos.y);
    T::lemma_value_injective(e.size.x, r.size.x);
    T::lemma_value_injective(e.size.y, r.size.y);
}

impl<T: Coordinate> Rectangle<T> {
    /// The exclusive right edge, as an integer.
    pub open spec fn right(self) -> int {
        self.pos.x.value() + self.size.x.value()
    }

    /// The exclusive bottom edge, as an integer.
    pub open spec fn bottom(self) -> int {
        self.pos.y.value() + self.size.y.value()
    }

    /// Both edges can be computed without leaving the coordinate type.
    pub open spec fn edges_representable(self) -> bool {
        T::representable(self.right()) && T::representable(self.bottom())
    }

    /// Whether a point lies inside the rectangle (right and bottom edges excluded).
    pub open spec fn spec_contains(self, p: Point<T>) -> bool {
        &&& self.pos.x.value() <= p.x.value() < self.right()
        &&& self.pos.y.value() <= p.y.value() < self.bottom()
    }

    /// The number of columns the rectangle covers (zero for a non-positive width).
    pub open spec fn columns(self) -> int {
        max_int(0, self.size.x.value())
    }

    /// The number of rows the rectangle covers (zero for a non-positive height).
    pub open spec fn rows(self) -> int {
        max_int(0, self.size.y.value())
    }

    pub fn x_start(&self) -> (r: T)
        ensures
            r == self.pos.x,
    {
        self.pos.x
    }

    pub fn y_start(&self) -> (r: T)
        ensures
            r == self.pos.y,
    {
        self.pos.y
    }

    pub fn x_end(&self) -> (r: T)
        requires
            T::representable(self.right()),
        ensures
            r.value() == self.right(),
    {
        self.pos.x.plus(self.size.x)
    }

    pub fn y_end(&self) -> (r: T)
        requires
            T::representable(self.bottom()),
        ensures
            r.value() == self.bottom(),
    {
        self.pos.y.plus(self.size.y)
    }

    pub fn x_range(&self) -> (r: core::ops::Range<T>)
        requires
            T::representable(self.right()),
        ensures
            r.start == self.pos.x,
            r.end.value() == self.right(),
    {
        self.x_start()..self.x_end()
    }

    pub fn y_range(&self) -> (r: core::ops::Range<T>)
        requires
            T::representable(self.bottom()),
        ensures
            r.start == self.pos.y,
            r.end.value() == self.bottom(),
    {
        self.y_start()..self.y_end()
    }

    pub fn contains(&self, p: &Point<T>) -> (r: bool)
        requires
            self.edges_representable(),
        ensures
            r == self.spec_contains(*p),
    {
        let xr = self.x_range();
        let yr = self.y_range();
        let in_x = !p.x.less_than(xr.start) && p.x.less_than(xr.end);
        let in_y = !p.y.less_than(yr.start) && p.y.less_than(yr.end);
        in_x && in_y
    }

    /// Builds a rectangle from two corner points.
    ///
    /// The corner is placed at `(min x, max x)` and the extent is the
    /// difference of the extreme coordinates on each axis.
    pub fn from_points(p0: Point<T>, p1: Point<T>) -> (r: Self)
        requires
            T::representable(max_int(p0.x.value(), p1.x.value()) - min_int(p0.x.value(), p1.x.value())),
            T::representable(max_int(p0.y.value(), p1.y.value()) - min_int(p0.y.value(), p1.y.value())),
        ensures
            r.pos.x.value() == min_int(p0.x.value(), p1.x.value()),
            r.pos.y.value() == max_int(p0.x.value(), p1.x.value()),
            r.size.x.value() == max_int(p0.x.value(), p1.x.value()) - min_int(p0.x.value(), p1.x.value()),
            r.size.y.value() == max_int(p0.y.value(), p1.y.value()) - min_int(p0.y.value(), p1.y.value()),
    {
        let xstart = min_coord(p0.x, p1.x);
        let ystart = min_coord(p0.y, p1.y);
        let xend = max_coord(p0.x, p1.x);
        let yend = max_coord(p0.y, p1.y);
        Rectangle { pos: Point::new(xstart, xend), size: Size::new(xend.minus(xstart), yend.minus(ystart)) }
    }

    /// The smallest rectangle that spans this one and reaches the point.
    ///
    /// The point's coordinates become a bound of the result: as a left or top
    /// edge when they lie before the rectangle, as the exclusive right or
    /// bottom edge when they lie beyond it.
    pub fn extend_to_contain(&self, p: Point<T>) -> (r: Rectangle<T>)
        requires
            self.edges_representable(),
            T::representable(
                max_int(p.x.value(), self.right()) - min_int(p.x.value(), self.pos.x.value()),
            ),
            T::representable(
                max_int(p.y.value(), self.bottom()) - min_int(p.y.value(), self.pos.y.value()),
            ),
        ensures
            extends_to(*self, p, r),
            self.spec_contains(p) ==> r == *self,
    {
        let xstart = min_coord(p.x, self.x_start());
        let ystart = min_coord(p.y, self.y_start());
        let xend = max_coord(p.x, self.x_end());
        let yend = max_coord(p.y, self.y_end());
        let r = Rectangle { pos: Point::new(xstart, ystart), size: Size::new(xend.minus(xstart), yend.minus(ystart)) };
        proof {
            if self.spec_contains(p) {
                lemma_extend_by_contained_point_is_identity(*self, p, r);
            }
        }
        r
    }

    /// Every point of the rectangle, column by column: for each x from left
    /// to right, every y from top to bottom.
    pub fn points(self) -> (r: Vec<Point<T>>)
        requires
            self.edges_representable(),
        ensures
            r.len() == self.columns() * self.rows(),
            forall|i: int, j: int|
                0 <= i < self.columns() && 0 <= j < self.rows() ==> {
                    &&& (#[trigger] r@[i * self.rows() + j]).x.value() == self.pos.x.value() + i
                    &&& r@[i * self.rows() + j].y.value() == self.pos.y.value() + j
                },
    {
        let mut r: Vec<Point<T>> = Vec::new();
        let xr = self.x_range();
        let yr = self.y_range();
        let ghost w = self.columns();
        let ghost h = self.rows();
        let ghost x0 = self.pos.x.value();
        let ghost y0 = self.pos.y.value();
        let mut x = xr.start;
        if !x.less_than(xr.end) {
            assert(w == 0);
            return r;
        }
        while x.less_than(xr.end)
            invariant
                w == self.columns(),
                h == self.rows(),
                x0 == self.pos.x.value(),
                y0 == self.pos.y.value(),
                xr.start == self.pos.x,
                xr.end.value() == self.right(),
                yr.start == self.pos.y,
                yr.end.value() == self.bottom(),
                self.edges_representable(),
                x0 <= x.value() <= self.right(),
                w == self.size.x.value(),
                r.len() == (x.value() - x0) * h,
                forall|i: int, j: int|
                    0 <= i < x.value() - x0 && 0 <= j < h ==> {
                        &&& (#[trigger] r@[i * h + j]).x.value() == x0 + i
                        &&& r@[i * h + j].y.value() == y0 + j
                    },
            decreases self.right() - x.value(),
        {
            let ghost i = x.value() - x0;
            let mut y = yr.start;
            while y.less_than(yr.end)
                invariant
                    h == self.rows(),
                    x0 == self.pos.x.value(),
                    y0 == self.pos.y.value(),
                    yr.start == self.pos.y,
                    yr.end.value() == self.bottom(),
                    self.edges_representable(),
                    i == x.value() - x0,
                    0 <= i,
                    y0 <= y.value() <= max_int(y0, self.bottom()),
                    h == max_int(0, self.bottom() - y0),
                    r.len() == i * h + (y.value() - y0),
                    forall|i2: int, j: int|
                        (0 <= i2 < i && 0 <= j < h) || (i2 == i && 0 <= j < y.value() - y0) ==> {
                            &&& (#[trigger] r@[i2 * h + j]).x.value() == x0 + i2
                            &&& r@[i2 * h + j].y.value() == y0 + j
                        },
                decreases self.bottom() - y.value(),
            {
                let ghost k = i * h + (y.value() - y0);
                let ghost before = r@;
                r.push(Point::new(x, y));
                proof {
                    assert forall|i2: int, j: int|
                        (0 <= i2 < i && 0 <= j < h) || (i2 == i && 0 <= j < y.value() + 1 - y0) implies {
                            &&& (#[trigger] r@[i2 * h + j]).x.value() == x0 + i2
                            &&& r@[i2 * h + j].y.value() == y0 + j
                        } by {
                        if i2 == i && j == y.value() - y0 {
                            assert(i2 * h + j == k);
                        } else {
                            if i2 < i {
                                assert(i2 * h + j < (i2 + 1) * h) by (nonlinear_arith)
                                    requires j < h;
                                assert((i2 + 1) * h <= i * h) by (nonlinear_arith)
                                    requires i2 + 1 <= i, 0 <= h;
                            }
                            assert(i2 * h + j < k);
                            assert(r@[i2 * h + j] == before[i2 * h + j]);
                        }
                    }
                    yr.end.lemma_representable();
                    y.lemma_representable();
                    T::lemma_between(y.value(), y.value() + 1, yr.end.value());
                }
                y = y.plus(T::one());
            }
            proof {
                x.lemma_representable();
                xr.end.lemma_representable();
                T::lemma_between(x.value(), x.value() + 1, xr.end.value());
                assert(y.value() - y0 == h);
                assert(r.len() == (i + 1) * h) by (nonlinear_arith)
                    requires r.len() == i * h + h;
            }
            x = x.plus(T::one());
        }
        r
    }
}

/// A 24-bit color.
#[derive(Debug, Clone, Copy, PartialEq, Eq, Structural)]
pub struct Color {
    pub r: u8,
    pub g: u8,
    pub b: u8,
}

impl Color {
    pub fn new(r: u8, g: u8, b: u8) -> (c: Self)
        ensures
            c.r == r,
            c.g == g,
            c.b == b,
    {
        Color { r, g, b }
    }

    /// The mean of the three channels, rounded down.
    pub open spec fn gray(self) -> u8 {
        ((self.r as int + self.g as int + self.b as int) / 3) as u8
    }

    pub fn to_grayscale(self) -> (v: u8)
        ensures
            v as int == (self.r as int + self.g as int + self.b as int) / 3,
            v == self.gray(),
        no_unwind
    {
        let sum: u16 = self.r as u16 + self.g as u16 + self.b as u16;
        (sum / 3) as u8
    }
}

/// What can go wrong while drawing.
#[derive(Debug, Clone, Copy, PartialEq, Eq, Structural)]
pub enum DrawError {
    /// The point lies outside the drawable area.
    PointOutArea(Point<i32>),
}

/// Turning an out-of-area failure into success on request.
pub trait DrawErrorExt: Sized {
    fn ignore_out_of_range(self, ignore: bool) -> (r: Self);
}

impl DrawErrorExt for Result<(), DrawError> {
    /// With `ignore`, an out-of-area failure becomes success; anything
    /// else is kept.
    fn ignore_out_of_range(self, ignore: bool) -> (r: Self)
        ensures
            r == if ignore && self is Err {
                Ok::<(), DrawError>(())
            } else {
                self
            },
    {
        if ignore {
            if let Err(DrawError::PointOutArea(_)) = &self {
                return Ok(());
            }
        }
        self
    }
}

impl Color {
    /// The color as text: `#` and two lowercase hexadecimal digits for each
    /// of red, green and blue.
    pub fn fmt(&self) -> (r: Vec<u8>)
        ensures
            r@ == "#".spec_bytes() + hex2(self.r) + hex2(self.g) + hex2(self.b),
    {
        let mut out: Vec<u8> = Vec::new();
        push_bytes(&mut out, "#".as_bytes());
        push_hex2(&mut out, self.r);
        push_hex2(&mut out, self.g);
        push_hex2(&mut out, self.b);
        out
    }
}

/// A point as text: `(x, y)` in decimal.
pub open spec fn point_text(p: Point<i32>) -> Seq<u8> {
    "(".spec_bytes() + signed_decimal(p.x as int) + ", ".spec_bytes() + signed_decimal(p.y as int)
        + ")".spec_bytes()
}

impl Vector2d<i32> {
    /// The vector as text: `(x, y)` in decimal.
    pub fn fmt(&self) -> (r: Vec<u8>)
        ensures
            r@ == point_text(*self),
    {
        let mut out: Vec<u8> = Vec::new();
        push_bytes(&mut out, "(".as_bytes());
        push_signed_decimal(&mut out, self.x as i64);
        push_bytes(&mut out, ", ".as_bytes());
        push_signed_decimal(&mut out, self.y as i64);
        push_bytes(&mut out, ")".as_bytes());
        out
    }
}

impl DrawError {
    /// The error as text: `invalid point: (x, y)`.
    pub fn fmt(&self) -> (r: Vec<u8>)
        ensures
            r@ == match self {
                DrawError::PointOutArea(p) => "invalid point: ".spec_bytes() + point_text(*p),
            },
    {
        match self {
            DrawError::PointOutArea(p) => {
                let mut out: Vec<u8> = Vec::new();
                push_bytes(&mut out, "invalid point: ".as_bytes());
                let point = p.fmt();
                push_bytes(&mut out, point.as_slice());
                out
            },
        }
    }
}

impl Color {
    /// The color of three channel values, when each fits in a byte.
    pub fn try_from(rgb: (i32, i32, i32)) -> (r: Result<Color, core::num::TryFromIntError>)
        ensures
            r is Ok <==> (0 <= rgb.0 <= 255 && 0 <= rgb.1 <= 255 && 0 <= rgb.2 <= 255),
            r is Ok ==> r->Ok_0 == (Color { r: rgb.0 as u8, g: rgb.1 as u8, b: rgb.2 as u8 }),
    {
        let (r, g, b) = rgb;
        let r = u8::try_from(r)?;
        let g = u8::try_from(g)?;
        let b = u8::try_from(b)?;
        Ok(Color { r, g, b })
    }
}

impl Vector2d<i32> {
    /// The vector of two sizes, when each fits in an `i32`.
    pub fn try_from(xy: (usize, usize)) -> (r: Result<Vector2d<i32>, core::num::TryFromIntError>)
        ensures
            r is Ok <==> (xy.0 <= i32::MAX && xy.1 <= i32::MAX),
            r is Ok ==> r->Ok_0 == (Vector2d { x: xy.0 as i32, y: xy.1 as i32 }),
    {
        let (x, y) = xy;
        let x = i32::try_from(x)?;
        let y = i32::try_from(y)?;
        Ok(Vector2d { x, y })
    }
}

} // verus!
