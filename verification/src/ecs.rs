//! The components, markers, resources and events of the model.

use vstd::prelude::*;
use crate::commands::Command;
use crate::geometry::{Origin, Size};
use crate::layout::{Entity, WorkspaceId};
use crate::ratio::Ratio;

verus! {

/// The identifier the operating system gives a window.
pub type WinID = i32;

/// The identifier the operating system gives a display.
pub type DisplayId = u32;

/// The identifier the operating system gives a process.
pub type Pid = i32;

/// The serial number by which the window server knows a process.
#[derive(Clone, Copy, Debug, PartialEq, Eq, Structural)]
pub struct ProcessSerialNumber {
    pub high: u32,
    pub low: u32,
}

/// Marks the window that has the keyboard focus.
#[derive(Clone, Copy, Debug, PartialEq, Eq, Structural)]
pub struct FocusedMarker;

/// Marks the workspace that is shown on the active display.
#[derive(Clone, Copy, Debug, PartialEq, Eq, Structural)]
pub struct ActiveWorkspaceMarker;

/// Marks the display that has the menu bar.
#[derive(Clone, Copy, Debug, PartialEq, Eq, Structural)]
pub struct ActiveDisplayMarker;

/// Marks a process or application that was launched a moment ago.
#[derive(Clone, Copy, Debug, PartialEq, Eq, Structural)]
pub struct FreshMarker;

/// Marks a process or application that ran before the window manager did.
#[derive(Clone, Copy, Debug, PartialEq, Eq, Structural)]
pub struct ExistingMarker;

/// Where a window is to be moved: the animation's target.
#[derive(Clone, Copy, Debug, PartialEq, Eq, Structural)]
pub struct RepositionMarker {
    pub origin: Origin,
    pub display_id: DisplayId,
}

/// What size a window is to be given: the animation's target.
#[derive(Clone, Copy, Debug, PartialEq, Eq, Structural)]
pub struct ResizeMarker {
    pub size: Size,
    pub display_id: DisplayId,
}

/// The window that the mouse is dragging, and the display it is on.
#[derive(Clone, Copy, Debug, PartialEq, Eq, Structural)]
pub struct WindowDraggedMarker {
    pub entity: Entity,
    pub display_id: DisplayId,
}

/// Asks for the strip to be laid out anew so that the marked window is in view.
#[derive(Clone, Copy, Debug, PartialEq, Eq, Structural)]
pub struct ReshuffleAroundMarker;

/// Marks a window that the core itself resized to make room in a stack, so
/// that the echo of that resize does not start another layout pass.
#[derive(Clone, Copy, Debug, PartialEq, Eq, Structural)]
pub struct StackAdjustedResize;

/// A swipe that is yet to be turned into scrolling: the travel of the
/// fingers as a fraction of the viewport's width.
#[derive(Clone, Copy, Debug, PartialEq, Eq, Structural)]
pub struct WindowSwipeMarker(pub Ratio);

/// What a window was before it was made as wide as the display.
#[derive(Clone, Copy, Debug, PartialEq, Eq, Structural)]
pub struct FullWidthMarker {
    pub width_ratio: Ratio,
    pub was_stacked: bool,
}

/// Why a window is not part of the tiling.
#[derive(Clone, Copy, Debug, PartialEq, Eq, Structural)]
pub enum Unmanaged {
    Floating,
    Minimized,
    Hidden,
}

/// What a timeout stands for, to be reported when it runs out.
#[derive(Clone, Copy, Debug, PartialEq, Eq, Structural)]
pub enum TimeoutReason {
    /// A launched process did not become ready.
    ProcessNotReady,
    /// An application did not become observable.
    ApplicationNotObservable,
    /// A workspace lost its display and found no new one.
    OrphanedStrip(WorkspaceId),
}

/// A timer that runs once.
#[derive(Clone, Copy, Debug, PartialEq, Eq, Structural)]
pub struct Timer {
    /// How long the timer runs, in milliseconds.
    pub duration: u64,
    /// How long it has run, in milliseconds; never more than `duration`.
    pub elapsed: u64,
}

/// A deadline for something that may never happen.
#[derive(Clone, Copy, Debug, PartialEq, Eq, Structural)]
pub struct Timeout {
    pub timer: Timer,
    pub message: Option<TimeoutReason>,
}

/// A focus event for a window that is not known yet, kept to be tried again.
#[derive(Clone, Copy, Debug, PartialEq, Eq, Structural)]
pub struct StrayFocusEvent(pub WinID);

/// Where the dock is on a display, and how much room it takes.
#[derive(Clone, Copy, Debug, PartialEq, Eq, Structural)]
pub enum DockPosition {
    Bottom(i32),
    Left(i32),
    Right(i32),
    Hidden,
}

/// Whether the next focus change is to leave the layout alone.
#[derive(Clone, Copy, Debug, PartialEq, Eq, Structural)]
pub struct SkipReshuffle(pub bool);

/// Whether Mission Control is on screen.
#[derive(Clone, Copy, Debug, PartialEq, Eq, Structural)]
pub struct MissionControlActive(pub bool);

/// The window that was focused because the mouse moved over it, until the
/// focus change arrives.
#[derive(Clone, Copy, Debug, PartialEq, Eq, Structural)]
pub struct FocusFollowsMouse(pub Option<WinID>);

/// Present while displays and workspaces are polled for changes.
#[derive(Clone, Copy, Debug, PartialEq, Eq, Structural)]
pub struct PollForNotifications;

/// Present until the windows that existed at startup are all known.
#[derive(Clone, Copy, Debug, PartialEq, Eq, Structural)]
pub struct Initializing;

/// What the outside world reports, and what the core tells itself.
#[derive(Clone, Copy, Debug, PartialEq, Eq, Structural)]
pub enum Event {
    Exit,
    ProcessesLoaded,
    Command { command: Command },
    ApplicationLaunched { psn: ProcessSerialNumber },
    ApplicationTerminated { psn: ProcessSerialNumber },
    ApplicationFrontSwitched { psn: ProcessSerialNumber },
    ApplicationHidden { pid: Pid },
    ApplicationVisible { pid: Pid },
    WindowCreated { window_id: WinID },
    WindowDestroyed { window_id: WinID },
    WindowFocused { window_id: WinID },
    WindowMoved { window_id: WinID },
    WindowResized { window_id: WinID },
    WindowMinimized { window_id: WinID },
    WindowDeminimized { window_id: WinID },
    WindowTitleChanged { window_id: WinID },
    MenuOpened { window_id: WinID },
    MenuClosed { window_id: WinID },
    MouseMoved { point: Origin },
    MouseDown { point: Origin },
    MouseDragged { point: Origin },
    /// A swipe with so many fingers, which travelled `delta` of the width.
    Swipe { fingers: usize, delta: Ratio },
    SpaceChanged,
    DisplayChanged,
    DisplayAdded { display_id: DisplayId },
    DisplayRemoved { display_id: DisplayId },
    DisplayMoved { display_id: DisplayId },
    DisplayResized { display_id: DisplayId },
    DisplayConfigured { display_id: DisplayId },
    MissionControlShowAllWindows,
    MissionControlShowFrontWindows,
    MissionControlShowDesktop,
    MissionControlExit,
    SystemWoke,
    ConfigRefresh,
}

/// An event to be handled by the observers at once.
#[derive(Clone, Copy, Debug, PartialEq, Eq, Structural)]
pub struct WMEventTrigger(pub Event);

/// An event to be put at the end of the queue.
#[derive(Clone, Copy, Debug, PartialEq, Eq, Structural)]
pub struct SendMessageTrigger(pub Event);

/// Asks for the dock of a display to be looked for.
#[derive(Clone, Copy, Debug, PartialEq, Eq, Structural)]
pub struct LocateDockTrigger(pub Entity);

/// Padding that a rule gives a window.
#[derive(Clone, Copy, Debug, PartialEq, Eq, Structural)]
pub enum WindowPadding {
    Vertical(i32),
    Horizontal(i32),
}

impl Timer {
    /// A timer that runs for `duration` milliseconds.
    pub fn new(duration: u64) -> (t: Timer)
        ensures
            t.duration == duration,
            t.elapsed == 0,
    {
        Timer { duration, elapsed: 0 }
    }

    pub open spec fn spec_is_finished(&self) -> bool {
        self.elapsed >= self.duration
    }

    /// Whether the timer has run its full time.
    #[verifier::when_used_as_spec(spec_is_finished)]
    pub fn is_finished(&self) -> (r: bool)
        ensures
            r == self.spec_is_finished(),
    {
        self.elapsed >= self.duration
    }

    /// Lets `delta` milliseconds pass. The timer stops at its duration.
    pub fn tick(&mut self, delta: u64)
        ensures
            final(self).duration == old(self).duration,
            final(self).elapsed == (if old(self).elapsed + delta >= old(self).duration {
                if old(self).elapsed >= old(self).duration {
                    old(self).elapsed
                } else {
                    old(self).duration
                }
            } else {
                (old(self).elapsed + delta) as u64
            }),
    {
        if self.elapsed >= self.duration {
        } else if delta >= self.duration - self.elapsed {
            self.elapsed = self.duration;
        } else {
            self.elapsed = self.elapsed + delta;
        }
    }

    /// Starts the timer anew.
    pub fn reset(&mut self)
        ensures
            final(self).duration == old(self).duration,
            final(self).elapsed == 0,
    {
        self.elapsed = 0;
    }
}

impl Timeout {
    /// A deadline `duration` milliseconds from now, with what to report
    /// when it passes.
    pub fn new(duration: u64, message: Option<TimeoutReason>) -> (t: Timeout)
        ensures
            t.timer == (Timer { duration, elapsed: 0 }),
            t.message == message,
    {
        Timeout { timer: Timer::new(duration), message }
    }
}

} // verus!
