//! The event loop: which events reach the handlers, how the frames that
//! the operating system reports enter the model, how swipes scroll the
//! strip, and how time passes.

use vstd::prelude::*;
use crate::ecs::{Event, PollForNotifications, WMEventTrigger, WinID, WindowPadding};
use crate::geometry::{IRect, IVec2, Origin, Size};
use crate::layout::{
    column_of, extent, extent_in_range, holds, placements, positions, Entity, LayoutStrip,
};
use crate::manager::Window;
use crate::ratio::{saturate, saturated, toward_zero, Ratio, RATIO_ONE};
use crate::systems::{point, rect};
use crate::triggers::{focus_of, Effect};
use crate::world::{
    entry_of, has_window, marked_for_reshuffle, window_index_by_id, with_window, WindowEntry,
    World, WorldView,
};

verus! {

/// The longest the event pump waits for events, in milliseconds.
pub const LOOP_MAX_TIMEOUT_MS: u32 = 500;

/// How long the event pump waits after a read that brought an event, in
/// milliseconds: the shortest wait.
pub const LOOP_TIMEOUT_STEP: u32 = 1;

/// How long the event pump waits next: the shortest wait after an event,
/// and twice as long as the last time, but no longer than the longest
/// wait, after a read that brought nothing. A wait of no time at all
/// counts as the shortest wait.
pub open spec fn next_wait(timeout: u32, got_event: bool) -> u32 {
    if got_event || timeout == 0 {
        LOOP_TIMEOUT_STEP
    } else if 2 * timeout < LOOP_MAX_TIMEOUT_MS {
        (2 * timeout) as u32
    } else {
        LOOP_MAX_TIMEOUT_MS
    }
}

/// Adapts the wait of the event pump to whether the last read brought an
/// event.
pub fn pump_timeout(timeout: u32, got_event: bool) -> (r: u32)
    ensures
        r == next_wait(timeout, got_event),
        1 <= r <= LOOP_MAX_TIMEOUT_MS,
{
    if got_event || timeout == 0 {
        LOOP_TIMEOUT_STEP
    } else if timeout < LOOP_MAX_TIMEOUT_MS / 2 {
        2 * timeout
    } else {
        LOOP_MAX_TIMEOUT_MS
    }
}

/// Whether an event is of no concern to the handlers.
pub open spec fn ignored(event: Event) -> bool {
    match event {
        Event::WindowTitleChanged { .. }
        | Event::MenuClosed { .. }
        | Event::DisplayResized { .. }
        | Event::DisplayConfigured { .. }
        | Event::SystemWoke
        | Event::WindowCreated { .. } => true,
        _ => false,
    }
}

/// Whether a window of this role and subrole is one to manage: a standard
/// window, or a floating window of the window role; but none of unknown
/// subrole.
pub open spec fn is_real_window(role: Option<Seq<char>>, subrole: Option<Seq<char>>) -> bool {
    subrole != Some("AXUnknown"@) && (subrole == Some("AXStandardWindow"@) || (role == Some(
        "AXWindow"@,
    ) && subrole == Some("AXFloatingWindow"@)))
}

/// Whether a window of this role belongs to another window: a sheet or a
/// drawer.
pub open spec fn is_child_role(role: Seq<char>) -> bool {
    role == "AXSheet"@ || role == "AXDrawer"@
}

/// Decides whether a window of this role and subrole is one to manage.
pub fn validate_window(role: Option<&str>, subrole: Option<&str>) -> (r: Result<
    (),
    crate::errors::Error,
>)
    ensures
        r.is_ok() == is_real_window(
            match role {
                Some(s) => Some(s@),
                None => None,
            },
            match subrole {
                Some(s) => Some(s@),
                None => None,
            },
        ),
        r.is_err() ==> r == Err::<(), crate::errors::Error>(crate::errors::Error::InvalidWindow),
{
    let sub = match subrole {
        Some(sub) => sub,
        None => {
            return Err(crate::errors::Error::InvalidWindow);
        },
    };
    if crate::text::same_text(sub, "AXUnknown") {
        return Err(crate::errors::Error::InvalidWindow);
    }
    if crate::text::same_text(sub, "AXStandardWindow") {
        return Ok(());
    }
    let window_role = match role {
        Some(role) => crate::text::same_text(role, "AXWindow"),
        None => false,
    };
    if window_role && crate::text::same_text(sub, "AXFloatingWindow") {
        Ok(())
    } else {
        Err(crate::errors::Error::InvalidWindow)
    }
}

/// Decides whether a window of this role belongs to another window.
pub fn child_role(role: &str) -> (r: bool)
    ensures
        r == is_child_role(role@),
{
    crate::text::same_text(role, "AXSheet") || crate::text::same_text(role, "AXDrawer")
}

/// Whether the window server lists a window that applications may have:
/// a top-level window that is a document window or has the tag of one,
/// or a plain window with one of the tags of a window that the user sees;
/// and that is on screen, or minimized with the tag that says so.
pub open spec fn valid_window(parent_wid: WinID, attributes: i64, tags: i64) -> bool {
    let shown = (tags & 0x1) != 0 || ((tags & 0x2) != 0 && (tags & 0x8000_0000) != 0);
    (parent_wid == 0 && ((attributes & 0x2) != 0 || (tags & 0x0400_0000_0000_0000) != 0) && shown)
        || ((attributes == 0 || attributes == 1) && ((tags & 0x1000_0000_0000_0000) != 0 || (tags
        & 0x0300_0000_0000_0000) != 0) && shown)
}

/// Decides from what the window server says of a window whether it is one
/// that applications may have.
pub fn found_valid_window(parent_wid: WinID, attributes: i64, tags: i64) -> (r: bool)
    ensures
        r == valid_window(parent_wid, attributes, tags),
{
    let shown = (tags & 0x1) != 0 || ((tags & 0x2) != 0 && (tags & 0x8000_0000) != 0);
    (parent_wid == 0 && ((attributes & 0x2) != 0 || (tags & 0x0400_0000_0000_0000) != 0) && shown)
        || ((attributes == 0 || attributes == 1) && ((tags & 0x1000_0000_0000_0000) != 0 || (tags
        & 0x0300_0000_0000_0000) != 0) && shown)
}

/// The frame of a window as the model keeps it, given the frame that the
/// operating system reports: larger by the window's padding on all sides.
pub open spec fn padded_frame(reported: IRect, horizontal: int, vertical: int) -> IRect {
    rect(
        reported.min.x - horizontal,
        reported.min.y - vertical,
        reported.max.x + horizontal,
        reported.max.y + vertical,
    )
}

/// Where the operating system has to put a window that the model wants at
/// `origin`: further in by the window's padding.
pub open spec fn padded_origin(origin: Origin, horizontal: int, vertical: int) -> IVec2 {
    point(origin.x + horizontal, origin.y + vertical)
}

/// The size that the operating system has to give a window that the model
/// wants to have the extent `size`: smaller by the padding on both sides.
pub open spec fn padded_size(size: Size, horizontal: int, vertical: int) -> IVec2 {
    point(size.x - 2 * horizontal, size.y - 2 * vertical)
}

impl Window {
    /// The window with the frame that the operating system reports, on a
    /// display that is `display_width` wide: the frame is kept with the
    /// padding added, and the window's share of the display's width is
    /// noted, where the display has a width.
    pub open spec fn updated(self, reported: IRect, display_width: int) -> Window {
        let frame = padded_frame(
            reported,
            self.horizontal_padding as int,
            self.vertical_padding as int,
        );
        Window {
            frame,
            width_ratio: if display_width > 0 {
                Ratio(Ratio::spec_between(saturated(frame.spec_width()), display_width) as i32)
            } else {
                self.width_ratio
            },
            ..self
        }
    }

    /// Takes in the frame that the operating system reports.
    pub fn update_frame(&mut self, reported: IRect, display_width: i32)
        ensures
            *final(self) == old(self).updated(reported, display_width as int),
    {
        let h: i64 = self.horizontal_padding as i64;
        let v: i64 = self.vertical_padding as i64;
        self.frame = IRect {
            min: IVec2 {
                x: saturate(reported.min.x as i64 - h),
                y: saturate(reported.min.y as i64 - v),
            },
            max: IVec2 {
                x: saturate(reported.max.x as i64 + h),
                y: saturate(reported.max.y as i64 + v),
            },
        };
        if display_width > 0 {
            self.width_ratio = Ratio::between(self.width(), display_width);
        }
    }

    /// Where the operating system has to put the window for the model to
    /// have it at `origin`.
    pub fn os_origin(&self, origin: Origin) -> (r: IVec2)
        ensures
            r == padded_origin(
                origin,
                self.horizontal_padding as int,
                self.vertical_padding as int,
            ),
    {
        IVec2 {
            x: saturate(origin.x as i64 + self.horizontal_padding as i64),
            y: saturate(origin.y as i64 + self.vertical_padding as i64),
        }
    }

    /// The size that the operating system has to give the window for the
    /// model to have it at the extent `size`.
    pub fn os_size(&self, size: Size) -> (r: IVec2)
        ensures
            r == padded_size(size, self.horizontal_padding as int, self.vertical_padding as int),
    {
        IVec2 {
            x: saturate(size.x as i64 - 2 * self.horizontal_padding as i64),
            y: saturate(size.y as i64 - 2 * self.vertical_padding as i64),
        }
    }
}

impl WorldView {
    /// What an event leads to before the handlers see it: an event of no
    /// concern is dropped; the report that the workspace changed ends the
    /// polling for such changes, because it shows that reports arrive.
    pub open spec fn dispatched(self, event: Event) -> WorldView {
        match event {
            Event::SpaceChanged => WorldView { poll_for_notifications: None, ..self },
            _ => self,
        }
    }

    /// The model after the operating system reported the frame
    /// `reported` of the window known as `id`, which moved, or was
    /// resized if `resized`.
    ///
    /// The window takes in the frame. After a resize of a window of the
    /// active strip, the focused window is asked to be brought into view,
    /// and the resized one where none is focused. Nothing happens without
    /// an active display and workspace.
    pub open spec fn frame_updated(self, id: WinID, reported: Option<IRect>, resized: bool)
        -> WorldView {
        let at = window_index_by_id(self.windows, id);
        match self.active() {
            Some(active) if at < self.windows.len() => {
                let entry = self.windows[at];
                let display = self.displays[active.display as int].display;
                let taken = match reported {
                    Some(frame) => self.windows.update(
                        at,
                        WindowEntry {
                            window: entry.window.updated(
                                frame,
                                saturated(display.bounds().spec_width()),
                            ),
                            ..entry
                        },
                    ),
                    None => self.windows,
                };
                let target = match focus_of(self.windows) {
                    Some(focus) => focus,
                    None => entry.entity,
                };
                WorldView {
                    windows: if resized && holds(
                        self.workspaces[active.strip as int].cols,
                        entry.entity,
                    ) {
                        marked_for_reshuffle(taken, target)
                    } else {
                        taken
                    },
                    ..self
                }
            },
            _ => self,
        }
    }
}

impl World {
    /// Decides what becomes of an event that arrives: whether the
    /// handlers are to see it.
    pub fn dispatch_toplevel_triggers(&mut self, event: &Event) -> (r: Option<Effect>)
        ensures
            final(self).wf() == old(self).wf(),
            final(self)@ == old(self)@.dispatched(*event),
            r == (if ignored(*event) {
                None
            } else {
                Some(Effect::Trigger(WMEventTrigger(*event)))
            }),
    {
        match event {
            Event::WindowTitleChanged { .. }
            | Event::MenuClosed { .. }
            | Event::DisplayResized { .. }
            | Event::DisplayConfigured { .. }
            | Event::SystemWoke
            | Event::WindowCreated { .. } => None,
            Event::SpaceChanged => {
                self.poll_for_notifications = None;
                Some(Effect::Trigger(WMEventTrigger(*event)))
            },
            _ => Some(Effect::Trigger(WMEventTrigger(*event))),
        }
    }

    /// Takes in the frame that the operating system reports of the window
    /// known as `window_id` after it moved or was resized.
    pub fn window_update_frame(&mut self, window_id: WinID, reported: Option<IRect>, resized: bool)
        requires
            old(self).wf(),
        ensures
            final(self).wf(),
            final(self)@ == old(self)@.frame_updated(window_id, reported, resized),
    {
        let active = match self.active() {
            Some(active) => active,
            None => {
                return ;
            },
        };
        let entry = match self.windows.find(window_id) {
            Some(entry) => entry,
            None => {
                return ;
            },
        };
        let target = match self.windows.focused() {
            Some(focused) => focused.entity,
            None => entry.entity,
        };
        let display = self.displays[active.display].display;
        if let Some(frame) = reported {
            let mut window = entry.window;
            window.update_frame(frame, display.width());
            self.windows.put_at_id(window_id, WindowEntry { window, ..entry });
        }
        assert(self@.workspaces[active.strip as int] == self.workspaces@[active.strip as int]@);
        if resized && self.workspaces[active.strip].strip.index_of(entry.entity).is_ok() {
            self.windows.reshuffle_around(target);
        }
    }
}

} // verus!
