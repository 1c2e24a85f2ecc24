//! Geometry in twips: lengths, points, sizes, rectangles and margins.
//!
//! The layer has no notion of resolution: every coordinate is a twip
//! (1/1440 inch), the y axis grows downwards, and the origin is the top-left
//! corner of the page.
use vstd::prelude::*;

verus! {

/// A length in twips.
pub type Twips = i32;

/// Twips per inch.
pub const TWIPS_PER_INCH: Twips = 1440;

/// Twips per point.
pub const TWIPS_PER_POINT: Twips = 20;

/// English Metric Units per inch (the unit of OOXML drawing extents).
pub const EMU_PER_INCH: i64 = 914_400;

/// Whether a mathematical integer is representable as a `Twips` value.
pub open spec fn fits_twips(v: int) -> bool {
    i32::MIN <= v <= i32::MAX
}

/// Rust's integer division, which rounds towards zero (spec `/` is Euclidean).
pub open spec fn trunc_div(a: int, b: int) -> int
    recommends
        b > 0,
{
    if a >= 0 {
        a / b
    } else {
        -((-a) / b)
    }
}

pub open spec fn max_int(a: int, b: int) -> int {
    if a >= b {
        a
    } else {
        b
    }
}

pub open spec fn min_int(a: int, b: int) -> int {
    if a <= b {
        a
    } else {
        b
    }
}

/// The larger of two twips values.
pub fn max_twips(a: Twips, b: Twips) -> (r: Twips)
    ensures
        r == max_int(a as int, b as int),
{
    if a >= b {
        a
    } else {
        b
    }
}

/// The smaller of two twips values.
pub fn min_twips(a: Twips, b: Twips) -> (r: Twips)
    ensures
        r == min_int(a as int, b as int),
{
    if a <= b {
        a
    } else {
        b
    }
}

/// Half points (the unit of `w:sz`) to twips: ten twips per half point,
/// computed in 64 bits and then narrowed to `Twips`.
pub fn half_points_to_twips(half_points: u32) -> (r: Twips)
    ensures
        r == ((half_points as int * 20) / 2) as i32,
{
    let wide: i64 = (half_points as i64 * 20) / 2;
    #[verifier::truncate]
    (wide as i32)
}

/// EMU to twips: one inch is 914400 EMU and 1440 twips, so the divisor is
/// 635; the quotient rounds towards zero and is then narrowed to `Twips`.
pub fn emu_to_twips(emu: i64) -> (r: Twips)
    ensures
        r == trunc_div(emu as int, 635) as i32,
{
    let q: i64 = emu / (EMU_PER_INCH / (TWIPS_PER_INCH as i64));
    #[verifier::truncate]
    (q as i32)
}

/// A point in page coordinates.
#[derive(Debug, Clone, Copy, PartialEq, Eq, Structural, Default)]
pub struct Point {
    pub x: Twips,
    pub y: Twips,
}

impl Point {
    pub fn new(x: Twips, y: Twips) -> (p: Point)
        ensures
            p.x == x,
            p.y == y,
    {
        Point { x, y }
    }
}

/// A size in twips.
#[derive(Debug, Clone, Copy, PartialEq, Eq, Structural, Default)]
pub struct Size {
    pub width: Twips,
    pub height: Twips,
}

impl Size {
    pub fn new(width: Twips, height: Twips) -> (s: Size)
        ensures
            s.width == width,
            s.height == height,
    {
        Size { width, height }
    }
}

/// An axis-aligned rectangle: top-left origin, y grows downwards.
#[derive(Debug, Clone, Copy, PartialEq, Eq, Structural, Default)]
pub struct Rect {
    pub x: Twips,
    pub y: Twips,
    pub width: Twips,
    pub height: Twips,
}

impl Rect {
    /// `x + width` as a mathematical integer.
    pub open spec fn spec_right(self) -> int {
        self.x + self.width
    }

    /// `y + height` as a mathematical integer.
    pub open spec fn spec_bottom(self) -> int {
        self.y + self.height
    }

    /// Right and bottom edges are representable.
    pub open spec fn edges_fit(self) -> bool {
        fits_twips(self.spec_right()) && fits_twips(self.spec_bottom())
    }

    pub open spec fn spec_is_empty(self) -> bool {
        self.width <= 0 || self.height <= 0
    }

    /// The intersection: the overlap, with a
    /// width or height of zero when the rectangles do not meet.
    pub open spec fn spec_intersect(self, other: Rect) -> Rect {
        let x = max_int(self.x as int, other.x as int);
        let y = max_int(self.y as int, other.y as int);
        let right = min_int(self.spec_right(), other.spec_right());
        let bottom = min_int(self.spec_bottom(), other.spec_bottom());
        Rect {
            x: x as i32,
            y: y as i32,
            width: max_int(right - x, 0) as i32,
            height: max_int(bottom - y, 0) as i32,
        }
    }

    pub fn new(x: Twips, y: Twips, width: Twips, height: Twips) -> (r: Rect)
        ensures
            r == (Rect { x, y, width, height }),
    {
        Rect { x, y, width, height }
    }

    pub fn right(&self) -> (r: Twips)
        requires
            fits_twips(self.spec_right()),
        ensures
            r == self.spec_right(),
    {
        self.x + self.width
    }

    pub fn bottom(&self) -> (r: Twips)
        requires
            fits_twips(self.spec_bottom()),
        ensures
            r == self.spec_bottom(),
    {
        self.y + self.height
    }

    pub fn is_empty(&self) -> (b: bool)
        ensures
            b == self.spec_is_empty(),
    {
        self.width <= 0 || self.height <= 0
    }

    /// The overlapping part; when the rectangles do not meet, the width or
    /// the height is 0.
    pub fn intersect(&self, other: &Rect) -> (r: Rect)
        requires
            self.edges_fit(),
            other.edges_fit(),
        ensures
            r == self.spec_intersect(*other),
            !r.spec_is_empty() ==> r.x as int + r.width <= self.spec_right() && r.x as int
                + r.width <= other.spec_right() && r.x >= self.x && r.x >= other.x,
    {
        let x = max_twips(self.x, other.x);
        let y = max_twips(self.y, other.y);
        let right = min_twips(self.right(), other.right());
        let bottom = min_twips(self.bottom(), other.bottom());
        let w: i64 = right as i64 - x as i64;
        let h: i64 = bottom as i64 - y as i64;
        let w: i64 = if w > 0 {
            w
        } else {
            0
        };
        let h: i64 = if h > 0 {
            h
        } else {
            0
        };
        Rect::new(x, y, w as i32, h as i32)
    }

    pub fn intersects(&self, other: &Rect) -> (b: bool)
        requires
            self.edges_fit(),
            other.edges_fit(),
        ensures
            b == !self.spec_intersect(*other).spec_is_empty(),
    {
        !self.intersect(other).is_empty()
    }
}

/// Four margins (page margins, cell padding).
#[derive(Debug, Clone, Copy, PartialEq, Eq, Structural, Default)]
pub struct Margins {
    pub top: Twips,
    pub right: Twips,
    pub bottom: Twips,
    pub left: Twips,
}

impl Margins {
    /// The rectangle shrunk by these margins; a negative width or height
    /// becomes 0.
    pub open spec fn spec_shrink(self, r: Rect) -> Rect {
        Rect {
            x: (r.x + self.left) as i32,
            y: (r.y + self.top) as i32,
            width: max_int(r.width - self.left - self.right, 0) as i32,
            height: max_int(r.height - self.top - self.bottom, 0) as i32,
        }
    }

    /// The shrink does not overflow.
    pub open spec fn shrink_fits(self, r: Rect) -> bool {
        &&& fits_twips(r.x + self.left)
        &&& fits_twips(r.y + self.top)
        &&& fits_twips(r.width - self.left - self.right)
        &&& fits_twips(r.width - self.left)
        &&& fits_twips(r.height - self.top - self.bottom)
        &&& fits_twips(r.height - self.top)
    }

    pub fn new(top: Twips, right: Twips, bottom: Twips, left: Twips) -> (m: Margins)
        ensures
            m == (Margins { top, right, bottom, left }),
    {
        Margins { top, right, bottom, left }
    }

    pub fn uniform(v: Twips) -> (m: Margins)
        ensures
            m == (Margins { top: v, right: v, bottom: v, left: v }),
    {
        Margins { top: v, right: v, bottom: v, left: v }
    }

    /// Shrinks a rectangle; where the result would be negative it becomes 0.
    pub fn shrink(&self, r: &Rect) -> (out: Rect)
        requires
            self.shrink_fits(*r),
        ensures
            out == self.spec_shrink(*r),
    {
        let w = r.width - self.left - self.right;
        let h = r.height - self.top - self.bottom;
        Rect::new(
            r.x + self.left,
            r.y + self.top,
            max_twips(w, 0),
            max_twips(h, 0),
        )
    }
}

/// Whether the point `(px, py)` lies in the rectangle (left and top edges
/// in, right and bottom edges out).
pub open spec fn rect_contains(r: Rect, px: int, py: int) -> bool {
    r.x <= px < r.x + r.width && r.y <= py < r.y + r.height
}

/// The intersection holds exactly the points that lie in both
/// rectangles.
pub proof fn law_intersection_is_the_common_part(a: Rect, b: Rect, px: int, py: int)
    requires
        a.edges_fit(),
        b.edges_fit(),
        a.width >= 0,
        a.height >= 0,
        b.width >= 0,
        b.height >= 0,
    ensures
        rect_contains(a.spec_intersect(b), px, py) <==> rect_contains(a, px, py) && rect_contains(b, px, py),
{
}

/// The content area of a rectangle shrunk by non-negative margins that
/// fit in it starts `left` and `top` inside it and ends `right` and
/// `bottom` before its far edges.
pub proof fn law_shrink_excludes_the_margins(m: Margins, r: Rect)
    requires
        m.shrink_fits(r),
        m.left >= 0,
        m.right >= 0,
        m.top >= 0,
        m.bottom >= 0,
        m.left + m.right <= r.width,
        m.top + m.bottom <= r.height,
    ensures
        m.spec_shrink(r).x == r.x + m.left,
        m.spec_shrink(r).y == r.y + m.top,
        m.spec_shrink(r).spec_right() == r.spec_right() - m.right,
        m.spec_shrink(r).spec_bottom() == r.spec_bottom() - m.bottom,
{
}

/// An RGB colour without alpha.
#[derive(Debug, Clone, Copy, PartialEq, Eq, Structural, Default)]
pub struct Color {
    pub r: u8,
    pub g: u8,
    pub b: u8,
}

impl Color {
    pub fn rgb(r: u8, g: u8, b: u8) -> (c: Color)
        ensures
            c == (Color { r, g, b }),
    {
        Color { r, g, b }
    }

    /// Black, `(0, 0, 0)`.
    pub fn black() -> (c: Color)
        ensures
            c == (Color { r: 0, g: 0, b: 0 }),
    {
        Color { r: 0, g: 0, b: 0 }
    }

    /// White, `(255, 255, 255)`.
    pub fn white() -> (c: Color)
        ensures
            c == (Color { r: 255, g: 255, b: 255 }),
    {
        Color { r: 255, g: 255, b: 255 }
    }
}

} // verus!
