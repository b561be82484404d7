//! Displays and windows as the model knows them.

use vstd::prelude::*;
use crate::ecs::{DisplayId, Pid, WinID, WindowPadding};
use crate::geometry::{IRect, IVec2, Origin};
use crate::ratio::{saturate, saturated, Ratio};

verus! {

/// A monitor: the room it has for windows in the coordinates shared by
/// all displays, and how much of its top the menu bar takes.
#[derive(Clone, Copy, Debug, PartialEq, Eq, Structural)]
pub struct Display {
    id: DisplayId,
    bounds: IRect,
    menubar_height: i32,
}

impl Display {
    pub closed spec fn spec_id(&self) -> DisplayId {
        self.id
    }

    pub closed spec fn spec_bounds(&self) -> IRect {
        self.bounds
    }

    pub closed spec fn spec_menubar_height(&self) -> i32 {
        self.menubar_height
    }

    /// The room that a display with the frame `frame` has for windows:
    /// the frame, shortened at its lower end by the height of the menu
    /// bar. The layout puts windows below the menu bar.
    pub open spec fn room(frame: IRect, menubar_height: i32) -> IRect {
        IRect {
            min: frame.min,
            max: IVec2 { x: frame.max.x, y: saturated(frame.max.y - menubar_height) as i32 },
        }
    }

    /// The display that the operating system knows as `id`, with the
    /// frame `frame` and a menu bar of the height `menubar_height`.
    pub fn new(id: DisplayId, frame: IRect, menubar_height: i32) -> (d: Display)
        ensures
            d.spec_id() == id,
            d.spec_bounds() == Display::room(frame, menubar_height),
            d.spec_menubar_height() == menubar_height,
    {
        Display {
            id,
            bounds: IRect {
                min: frame.min,
                max: IVec2 {
                    x: frame.max.x,
                    y: saturate(frame.max.y as i64 - menubar_height as i64),
                },
            },
            menubar_height,
        }
    }

    #[verifier::when_used_as_spec(spec_id)]
    pub fn id(&self) -> (r: DisplayId)
        ensures
            r == self.spec_id(),
    {
        self.id
    }

    #[verifier::when_used_as_spec(spec_bounds)]
    pub fn bounds(&self) -> (r: IRect)
        ensures
            r == self.spec_bounds(),
    {
        self.bounds
    }

    #[verifier::when_used_as_spec(spec_menubar_height)]
    pub fn menubar_height(&self) -> (r: i32)
        ensures
            r == self.spec_menubar_height(),
    {
        self.menubar_height
    }

    /// The width of the display, held to the range of an `i32`.
    pub fn width(&self) -> (r: i32)
        ensures
            r == saturated(self.spec_bounds().spec_width()),
    {
        saturate(self.bounds.max.x as i64 - self.bounds.min.x as i64)
    }

    /// The height of the display, held to the range of an `i32`.
    pub fn height(&self) -> (r: i32)
        ensures
            r == saturated(self.spec_bounds().spec_height()),
    {
        saturate(self.bounds.max.y as i64 - self.bounds.min.y as i64)
    }

    /// A point given relative to the display's top-left corner, in the
    /// coordinates shared by all displays.
    pub open spec fn spec_absolute(&self, origin: Origin) -> Origin {
        IVec2 {
            x: saturated(origin.x + self.spec_bounds().min.x) as i32,
            y: saturated(origin.y + self.spec_bounds().min.y) as i32,
        }
    }

    /// Takes a point given relative to the display's top-left corner to
    /// the coordinates shared by all displays.
    pub fn absolute_coords(&self, origin: Origin) -> (r: Origin)
        ensures
            r == self.spec_absolute(origin),
    {
        IVec2 {
            x: saturate(origin.x as i64 + self.bounds.min.x as i64),
            y: saturate(origin.y as i64 + self.bounds.min.y as i64),
        }
    }
}

/// What the model knows of a window.
#[derive(Clone, Copy, Debug, PartialEq, Eq, Structural)]
pub struct Window {
    /// The identifier the operating system gave it.
    pub id: WinID,
    /// The process it belongs to.
    pub pid: Pid,
    /// Where it was when the operating system last reported it, its
    /// padding included.
    pub frame: IRect,
    pub minimized: bool,
    /// Its width as a fraction of the display's, when it was last updated.
    pub width_ratio: Ratio,
    pub vertical_padding: i32,
    pub horizontal_padding: i32,
}

impl Window {
    /// A window as first reported, without padding and a third of the
    /// display wide.
    pub fn new(id: WinID, pid: Pid, frame: IRect) -> (w: Window)
        ensures
            w == (Window {
                id,
                pid,
                frame,
                minimized: false,
                width_ratio: Ratio(330_000),
                vertical_padding: 0,
                horizontal_padding: 0,
            }),
    {
        Window {
            id,
            pid,
            frame,
            minimized: false,
            width_ratio: Ratio(330_000),
            vertical_padding: 0,
            horizontal_padding: 0,
        }
    }

    /// The window's width, held to the range of an `i32`.
    pub fn width(&self) -> (r: i32)
        ensures
            r == saturated(self.frame.spec_width()),
    {
        saturate(self.frame.max.x as i64 - self.frame.min.x as i64)
    }

    /// The window's height, held to the range of an `i32`.
    pub fn height(&self) -> (r: i32)
        ensures
            r == saturated(self.frame.spec_height()),
    {
        saturate(self.frame.max.y as i64 - self.frame.min.y as i64)
    }

    /// Sets one of the two paddings.
    pub fn set_padding(&mut self, padding: WindowPadding)
        ensures
            *final(self) == match padding {
                WindowPadding::Vertical(p) => Window { vertical_padding: p, ..*old(self) },
                WindowPadding::Horizontal(p) => Window { horizontal_padding: p, ..*old(self) },
            },
    {
        match padding {
            WindowPadding::Vertical(p) => {
                self.vertical_padding = p;
            },
            WindowPadding::Horizontal(p) => {
                self.horizontal_padding = p;
            },
        }
    }

    /// Moves the window so that its top-left corner is at `origin`,
    /// keeping its size.
    pub fn reposition(&mut self, origin: Origin)
        ensures
            *final(self) == (Window { frame: moved_to(old(self).frame, origin), ..*old(self) }),
    {
        let width = self.frame.max.x as i64 - self.frame.min.x as i64;
        let height = self.frame.max.y as i64 - self.frame.min.y as i64;
        self.frame = IRect {
            min: origin,
            max: IVec2 {
                x: saturate(origin.x as i64 + width),
                y: saturate(origin.y as i64 + height),
            },
        };
    }

    /// Gives the window the extent `size`, keeping its top-left corner,
    /// and notes the fraction of `display_width` that it is now wide. The
    /// fraction stays as it was where the display has no width.
    pub fn resize(&mut self, size: IVec2, display_width: i32)
        ensures
            *final(self) == (Window {
                frame: sized_to(old(self).frame, size),
                width_ratio: if display_width > 0 {
                    Ratio(
                        Ratio::spec_between(
                            sized_to(old(self).frame, size).spec_width(),
                            display_width as int,
                        ) as i32,
                    )
                } else {
                    old(self).width_ratio
                },
                ..*old(self)
            }),
    {
        self.frame = IRect {
            min: self.frame.min,
            max: IVec2 {
                x: saturate(self.frame.min.x as i64 + size.x as i64),
                y: saturate(self.frame.min.y as i64 + size.y as i64),
            },
        };
        if display_width > 0 {
            proof {
                assert(crate::geometry::fits_i32(self.frame.spec_width())) by {
                    let w = self.frame.spec_width();
                    assert(self.frame.max.x == saturated(self.frame.min.x + size.x));
                }
            }
            self.width_ratio = Ratio::between(self.frame.width(), display_width);
        }
    }
}

/// `frame` moved so that its top-left corner is at `origin`.
pub open spec fn moved_to(frame: IRect, origin: Origin) -> IRect {
    IRect {
        min: origin,
        max: IVec2 {
            x: saturated(origin.x + frame.spec_width()) as i32,
            y: saturated(origin.y + frame.spec_height()) as i32,
        },
    }
}

/// `frame` with its extent changed to `size`.
pub open spec fn sized_to(frame: IRect, size: IVec2) -> IRect {
    IRect {
        min: frame.min,
        max: IVec2 {
            x: saturated(frame.min.x + size.x) as i32,
            y: saturated(frame.min.y + size.y) as i32,
        },
    }
}

} // verus!
