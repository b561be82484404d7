//! Where a window goes when it leaves the tiling to float.

use vstd::prelude::*;
use crate::geometry::{spec_clamp, spec_max, spec_min, IRect, IVec2, Size};
use crate::ratio::{saturate, saturated, toward_zero};
use crate::systems::{point, rect};

verus! {

/// A floating window is at most this many fifths of the display wide and
/// high.
pub const UNMANAGED_MAX_SCREEN_RATIO_NUM: i32 = 4;

pub const UNMANAGED_MAX_SCREEN_RATIO_DEN: i32 = 5;

/// By so many pixels a window is moved when it starts to float, so that it
/// visibly pops out of the tiling.
pub const UNMANAGED_POP_OFFSET: i32 = 32;

/// A frame of whole-number corners before it is held to `i32`.
pub struct Frame {
    pub x0: int,
    pub y0: int,
    pub x1: int,
    pub y1: int,
}

impl Frame {
    pub open spec fn of(r: IRect) -> Frame {
        Frame { x0: r.min.x as int, y0: r.min.y as int, x1: r.max.x as int, y1: r.max.y as int }
    }

    pub open spec fn rect(self) -> IRect {
        rect(self.x0, self.y0, self.x1, self.y1)
    }

    /// The frame moved by `dx` and `dy`.
    pub open spec fn shifted(self, dx: int, dy: int) -> Frame {
        Frame { x0: self.x0 + dx, y0: self.y0 + dy, x1: self.x1 + dx, y1: self.y1 + dy }
    }

    /// The frame lies within `bounds`, edges included.
    pub open spec fn within(self, bounds: IRect) -> bool {
        self.x0 >= bounds.min.x && self.x1 <= bounds.max.x && self.y0 >= bounds.min.y && self.y1
            <= bounds.max.y
    }
}

/// The frame of extent `width` by `height` whose top-left corner is that of
/// `frame`, moved into `bounds` as far as it goes: the corner is kept
/// between the top-left corner of `bounds` and the point that puts the
/// frame's other corner on the bottom-right corner of `bounds`, and on the
/// top-left corner of `bounds` where the frame is larger than `bounds`.
pub open spec fn clamped_to_bounds(x: int, y: int, width: int, height: int, bounds: IRect)
    -> Frame {
    let max_x = spec_max(bounds.max.x - width, bounds.min.x as int);
    let max_y = spec_max(bounds.max.y - height, bounds.min.y as int);
    let nx = spec_clamp(x, bounds.min.x as int, max_x);
    let ny = spec_clamp(y, bounds.min.y as int, max_y);
    Frame {
        x0: spec_min(nx, nx + width),
        y0: spec_min(ny, ny + height),
        x1: spec_max(nx, nx + width),
        y1: spec_max(ny, ny + height),
    }
}

/// The frame moved by the pop offset in the first direction in which it
/// stays within `bounds`: down right, up right, down left, up left, right,
/// left, down, up. It stays where it is where no direction will do.
pub open spec fn popped(frame: Frame, bounds: IRect, offset: int) -> Frame {
    if frame.shifted(offset, offset).within(bounds) {
        frame.shifted(offset, offset)
    } else if frame.shifted(offset, -offset).within(bounds) {
        frame.shifted(offset, -offset)
    } else if frame.shifted(-offset, offset).within(bounds) {
        frame.shifted(-offset, offset)
    } else if frame.shifted(-offset, -offset).within(bounds) {
        frame.shifted(-offset, -offset)
    } else if frame.shifted(offset, 0).within(bounds) {
        frame.shifted(offset, 0)
    } else if frame.shifted(-offset, 0).within(bounds) {
        frame.shifted(-offset, 0)
    } else if frame.shifted(0, offset).within(bounds) {
        frame.shifted(0, offset)
    } else if frame.shifted(0, -offset).within(bounds) {
        frame.shifted(0, -offset)
    } else {
        frame
    }
}

/// Where a window goes that starts to float: shrunk to at most four
/// fifths of the display in width and in height, moved into the display,
/// and popped by `UNMANAGED_POP_OFFSET` where that keeps it within the
/// display.
pub open spec fn floated(frame: IRect, bounds: IRect) -> Frame {
    let max_width = toward_zero(
        bounds.spec_width() * UNMANAGED_MAX_SCREEN_RATIO_NUM,
        UNMANAGED_MAX_SCREEN_RATIO_DEN as int,
    );
    let max_height = toward_zero(
        bounds.spec_height() * UNMANAGED_MAX_SCREEN_RATIO_NUM,
        UNMANAGED_MAX_SCREEN_RATIO_DEN as int,
    );
    let width = spec_min(frame.spec_width(), max_width);
    let height = spec_min(frame.spec_height(), max_height);
    let shrunk = Frame {
        x0: spec_min(frame.min.x as int, frame.min.x + width),
        y0: spec_min(frame.min.y as int, frame.min.y + height),
        x1: spec_max(frame.min.x as int, frame.min.x + width),
        y1: spec_max(frame.min.y as int, frame.min.y + height),
    };
    popped(
        clamped_to_bounds(
            shrunk.x0,
            shrunk.y0,
            shrunk.x1 - shrunk.x0,
            shrunk.y1 - shrunk.y0,
            bounds,
        ),
        bounds,
        UNMANAGED_POP_OFFSET as int,
    )
}

/// A frame with corners in a range where sums of a few of them fit `i64`.
struct Wide {
    x0: i64,
    y0: i64,
    x1: i64,
    y1: i64,
}

impl Wide {
    spec fn frame(self) -> Frame {
        Frame { x0: self.x0 as int, y0: self.y0 as int, x1: self.x1 as int, y1: self.y1 as int }
    }

    spec fn small(self) -> bool {
        -0x10_0000_0000 <= self.x0 <= 0x10_0000_0000 && -0x10_0000_0000 <= self.y0
            <= 0x10_0000_0000 && -0x10_0000_0000 <= self.x1 <= 0x10_0000_0000 && -0x10_0000_0000
            <= self.y1 <= 0x10_0000_0000
    }
}

fn least(a: i64, b: i64) -> (r: i64)
    ensures
        r == spec_min(a as int, b as int),
{
    if a < b {
        a
    } else {
        b
    }
}

fn most(a: i64, b: i64) -> (r: i64)
    ensures
        r == spec_max(a as int, b as int),
{
    if a > b {
        a
    } else {
        b
    }
}

fn clamp_origin_to_bounds(x: i64, y: i64, width: i64, height: i64, bounds: &IRect) -> (r: Wide)
    requires
        -0x2_0000_0000 <= x <= 0x2_0000_0000,
        -0x2_0000_0000 <= y <= 0x2_0000_0000,
        -0x2_0000_0000 <= width <= 0x2_0000_0000,
        -0x2_0000_0000 <= height <= 0x2_0000_0000,
    ensures
        r.frame() == clamped_to_bounds(x as int, y as int, width as int, height as int, *bounds),
        r.small(),
{
    let max_x = most(bounds.max.x as i64 - width, bounds.min.x as i64);
    let max_y = most(bounds.max.y as i64 - height, bounds.min.y as i64);
    let nx = least(most(x, bounds.min.x as i64), max_x);
    let ny = least(most(y, bounds.min.y as i64), max_y);
    Wide {
        x0: least(nx, nx + width),
        y0: least(ny, ny + height),
        x1: most(nx, nx + width),
        y1: most(ny, ny + height),
    }
}

fn fits_shifted(frame: &Wide, dx: i64, dy: i64, bounds: &IRect) -> (r: bool)
    requires
        frame.small(),
        -0x1000 <= dx <= 0x1000,
        -0x1000 <= dy <= 0x1000,
    ensures
        r == frame.frame().shifted(dx as int, dy as int).within(*bounds),
{
    frame.x0 + dx >= bounds.min.x as i64 && frame.x1 + dx <= bounds.max.x as i64 && frame.y0 + dy
        >= bounds.min.y as i64 && frame.y1 + dy <= bounds.max.y as i64
}

fn shift(frame: &Wide, dx: i64, dy: i64) -> (r: Wide)
    requires
        frame.small(),
        -0x1000 <= dx <= 0x1000,
        -0x1000 <= dy <= 0x1000,
    ensures
        r.frame() == frame.frame().shifted(dx as int, dy as int),
{
    Wide { x0: frame.x0 + dx, y0: frame.y0 + dy, x1: frame.x1 + dx, y1: frame.y1 + dy }
}

fn offset_frame_within_bounds(frame: Wide, bounds: &IRect, offset: i64) -> (r: Wide)
    requires
        frame.small(),
        0 <= offset <= 0x1000,
    ensures
        r.frame() == popped(frame.frame(), *bounds, offset as int),
{
    if fits_shifted(&frame, offset, offset, bounds) {
        shift(&frame, offset, offset)
    } else if fits_shifted(&frame, offset, -offset, bounds) {
        shift(&frame, offset, -offset)
    } else if fits_shifted(&frame, -offset, offset, bounds) {
        shift(&frame, -offset, offset)
    } else if fits_shifted(&frame, -offset, -offset, bounds) {
        shift(&frame, -offset, -offset)
    } else if fits_shifted(&frame, offset, 0, bounds) {
        shift(&frame, offset, 0)
    } else if fits_shifted(&frame, -offset, 0, bounds) {
        shift(&frame, -offset, 0)
    } else if fits_shifted(&frame, 0, offset, bounds) {
        shift(&frame, 0, offset)
    } else if fits_shifted(&frame, 0, -offset, bounds) {
        shift(&frame, 0, -offset)
    } else {
        frame
    }
}

/// Computes the frame of a window that starts to float on a display with
/// the bounds `bounds`.
pub fn float_frame(frame: IRect, bounds: IRect) -> (r: IRect)
    ensures
        r == floated(frame, bounds).rect(),
{
    let bounds_width: i64 = bounds.max.x as i64 - bounds.min.x as i64;
    let bounds_height: i64 = bounds.max.y as i64 - bounds.min.y as i64;
    let max_width: i64 = (bounds_width * 4) / 5;
    let max_height: i64 = (bounds_height * 4) / 5;
    let width = least(frame.max.x as i64 - frame.min.x as i64, max_width);
    let height = least(frame.max.y as i64 - frame.min.y as i64, max_height);
    let x0 = least(frame.min.x as i64, frame.min.x as i64 + width);
    let y0 = least(frame.min.y as i64, frame.min.y as i64 + height);
    let x1 = most(frame.min.x as i64, frame.min.x as i64 + width);
    let y1 = most(frame.min.y as i64, frame.min.y as i64 + height);
    let clamped = clamp_origin_to_bounds(x0, y0, x1 - x0, y1 - y0, &bounds);
    let moved = offset_frame_within_bounds(clamped, &bounds, UNMANAGED_POP_OFFSET as i64);
    IRect {
        min: IVec2 { x: saturate(moved.x0), y: saturate(moved.y0) },
        max: IVec2 { x: saturate(moved.x1), y: saturate(moved.y1) },
    }
}

} // verus!
