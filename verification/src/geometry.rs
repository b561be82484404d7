//! Integer points and rectangles in screen coordinates.

use vstd::prelude::*;

verus! {

/// A point or an extent on the integer pixel grid.
#[derive(Clone, Copy, Debug, PartialEq, Eq, Structural)]
pub struct IVec2 {
    pub x: i32,
    pub y: i32,
}

/// The top-left corner of a frame.
pub type Origin = IVec2;

/// The width and height of a frame.
pub type Size = IVec2;

/// An axis-aligned rectangle given by its top-left and bottom-right corners.
#[derive(Clone, Copy, Debug, PartialEq, Eq, Structural)]
pub struct IRect {
    pub min: IVec2,
    pub max: IVec2,
}

/// Integer halving that rounds toward zero, as machine division does.
pub open spec fn half(a: int) -> int {
    if a >= 0 {
        a / 2
    } else {
        -((-a) / 2)
    }
}

pub open spec fn spec_min(a: int, b: int) -> int {
    if a < b {
        a
    } else {
        b
    }
}

pub open spec fn spec_max(a: int, b: int) -> int {
    if a > b {
        a
    } else {
        b
    }
}

/// `v` limited to the range `[lo, hi]`; where the range is empty, `hi` wins.
pub open spec fn spec_clamp(v: int, lo: int, hi: int) -> int {
    spec_min(spec_max(v, lo), hi)
}

/// Whether `v` fits a 32-bit signed integer.
pub open spec fn fits_i32(v: int) -> bool {
    i32::MIN <= v <= i32::MAX
}

pub fn min_i32(a: i32, b: i32) -> (r: i32)
    ensures
        r == spec_min(a as int, b as int),
{
    if a < b {
        a
    } else {
        b
    }
}

pub fn max_i32(a: i32, b: i32) -> (r: i32)
    ensures
        r == spec_max(a as int, b as int),
{
    if a > b {
        a
    } else {
        b
    }
}

/// Limits `v` to `[lo, hi]`. With `lo > hi` the result is `hi`.
pub fn clamp_i32(v: i32, lo: i32, hi: i32) -> (r: i32)
    ensures
        r == spec_clamp(v as int, lo as int, hi as int),
        lo <= hi ==> lo <= r <= hi,
        lo <= v <= hi ==> r == v,
{
    min_i32(max_i32(v, lo), hi)
}

impl IVec2 {
    pub fn new(x: i32, y: i32) -> (v: IVec2)
        ensures
            v.x == x,
            v.y == y,
    {
        IVec2 { x, y }
    }

    /// The same point with its horizontal coordinate replaced.
    pub fn with_x(self, x: i32) -> (v: IVec2)
        ensures
            v.x == x,
            v.y == self.y,
    {
        IVec2 { x, y: self.y }
    }

    /// Component-wise sum.
    pub fn plus(self, rhs: IVec2) -> (v: IVec2)
        requires
            fits_i32(self.x + rhs.x),
            fits_i32(self.y + rhs.y),
        ensures
            v.x == self.x + rhs.x,
            v.y == self.y + rhs.y,
    {
        IVec2 { x: self.x + rhs.x, y: self.y + rhs.y }
    }

    /// Component-wise difference.
    pub fn minus(self, rhs: IVec2) -> (v: IVec2)
        requires
            fits_i32(self.x - rhs.x),
            fits_i32(self.y - rhs.y),
        ensures
            v.x == self.x - rhs.x,
            v.y == self.y - rhs.y,
    {
        IVec2 { x: self.x - rhs.x, y: self.y - rhs.y }
    }

    /// Component-wise clamp of a point into the box spanned by `lo` and `hi`.
    pub fn clamp(self, lo: IVec2, hi: IVec2) -> (v: IVec2)
        ensures
            v.x == spec_clamp(self.x as int, lo.x as int, hi.x as int),
            v.y == spec_clamp(self.y as int, lo.y as int, hi.y as int),
    {
        IVec2 { x: clamp_i32(self.x, lo.x, hi.x), y: clamp_i32(self.y, lo.y, hi.y) }
    }
}

impl IRect {
    /// Width as a mathematical integer; negative for an inverted rectangle.
    pub open spec fn spec_width(self) -> int {
        self.max.x - self.min.x
    }

    pub open spec fn spec_height(self) -> int {
        self.max.y - self.min.y
    }

    /// A rectangle whose corners are ordered and whose extent fits an `i32`.
    pub open spec fn valid(self) -> bool {
        &&& self.min.x <= self.max.x
        &&& self.min.y <= self.max.y
        &&& fits_i32(self.spec_width())
        &&& fits_i32(self.spec_height())
    }

    /// The rectangle spanned by two opposite corners, in either order.
    pub fn from_corners(p0: IVec2, p1: IVec2) -> (r: IRect)
        ensures
            r.min.x == spec_min(p0.x as int, p1.x as int),
            r.min.y == spec_min(p0.y as int, p1.y as int),
            r.max.x == spec_max(p0.x as int, p1.x as int),
            r.max.y == spec_max(p0.y as int, p1.y as int),
    {
        IRect {
            min: IVec2 { x: min_i32(p0.x, p1.x), y: min_i32(p0.y, p1.y) },
            max: IVec2 { x: max_i32(p0.x, p1.x), y: max_i32(p0.y, p1.y) },
        }
    }

    /// The rectangle spanned by the corners `(x0, y0)` and `(x1, y1)`.
    pub fn new(x0: i32, y0: i32, x1: i32, y1: i32) -> (r: IRect)
        ensures
            r.min.x == spec_min(x0 as int, x1 as int),
            r.min.y == spec_min(y0 as int, y1 as int),
            r.max.x == spec_max(x0 as int, x1 as int),
            r.max.y == spec_max(y0 as int, y1 as int),
    {
        IRect::from_corners(IVec2 { x: x0, y: y0 }, IVec2 { x: x1, y: y1 })
    }

    pub fn width(&self) -> (w: i32)
        requires
            fits_i32(self.spec_width()),
        ensures
            w == self.spec_width(),
    {
        self.max.x - self.min.x
    }

    pub fn height(&self) -> (h: i32)
        requires
            fits_i32(self.spec_height()),
        ensures
            h == self.spec_height(),
    {
        self.max.y - self.min.y
    }

    pub fn size(&self) -> (s: Size)
        requires
            fits_i32(self.spec_width()),
            fits_i32(self.spec_height()),
        ensures
            s.x == self.spec_width(),
            s.y == self.spec_height(),
    {
        IVec2 { x: self.max.x - self.min.x, y: self.max.y - self.min.y }
    }

    /// The rectangle of extent `size` whose top-left corner is `origin`.
    pub fn from_origin_size(origin: Origin, size: Size) -> (r: IRect)
        requires
            fits_i32(origin.x + size.x),
            fits_i32(origin.y + size.y),
        ensures
            r.min == origin,
            r.max.x == origin.x + size.x,
            r.max.y == origin.y + size.y,
    {
        IRect { min: origin, max: IVec2 { x: origin.x + size.x, y: origin.y + size.y } }
    }

    /// The center of the rectangle, each coordinate halved toward zero.
    pub fn center(&self) -> (c: IVec2)
        requires
            fits_i32(self.min.x + self.max.x),
            fits_i32(self.min.y + self.max.y),
        ensures
            c.x == half(self.min.x + self.max.x),
            c.y == half(self.min.y + self.max.y),
    {
        IVec2 { x: (self.min.x + self.max.x) / 2, y: (self.min.y + self.max.y) / 2 }
    }

    /// The rectangle centered on `origin` with half extents `size / 2`,
    /// so that an odd extent loses one pixel.
    pub fn from_center_size(origin: IVec2, size: Size) -> (r: IRect)
        requires
            size.x >= 0,
            size.y >= 0,
            fits_i32(origin.x - size.x / 2),
            fits_i32(origin.y - size.y / 2),
            fits_i32(origin.x + size.x / 2),
            fits_i32(origin.y + size.y / 2),
        ensures
            r.min.x == origin.x - size.x / 2,
            r.min.y == origin.y - size.y / 2,
            r.max.x == origin.x + size.x / 2,
            r.max.y == origin.y + size.y / 2,
            r.valid(),
    {
        let half_x = size.x / 2;
        let half_y = size.y / 2;
        IRect {
            min: IVec2 { x: origin.x - half_x, y: origin.y - half_y },
            max: IVec2 { x: origin.x + half_x, y: origin.y + half_y },
        }
    }

    /// The common part of two rectangles; empty, at the corner of the
    /// smaller bottom-right, where they do not meet.
    pub fn intersect(&self, other: IRect) -> (r: IRect)
        ensures
            r.max.x == spec_min(self.max.x as int, other.max.x as int),
            r.max.y == spec_min(self.max.y as int, other.max.y as int),
            r.min.x == spec_min(spec_max(self.min.x as int, other.min.x as int), r.max.x as int),
            r.min.y == spec_min(spec_max(self.min.y as int, other.min.y as int), r.max.y as int),
            r.min.x <= r.max.x,
            r.min.y <= r.max.y,
    {
        let max_x = min_i32(self.max.x, other.max.x);
        let max_y = min_i32(self.max.y, other.max.y);
        IRect {
            min: IVec2 {
                x: min_i32(max_i32(self.min.x, other.min.x), max_x),
                y: min_i32(max_i32(self.min.y, other.min.y), max_y),
            },
            max: IVec2 { x: max_x, y: max_y },
        }
    }
}

} // verus!
