//! What the model does when something happens: the handlers of events.

use vstd::prelude::*;
use crate::ecs::{
    ActiveDisplayMarker, ActiveWorkspaceMarker, DisplayId, Event, FocusFollowsMouse,
    FocusedMarker, MissionControlActive, Pid, SendMessageTrigger, SkipReshuffle,
    StrayFocusEvent, Timeout, Timer, Unmanaged, WMEventTrigger, WinID, WindowDraggedMarker,
    WindowSwipeMarker,
};
use crate::ratio::{Ratio, RATIO_ONE};
use crate::floating::{float_frame, floated};
use crate::geometry::{fits_i32, half, IRect, IVec2, Origin};
use crate::layout::{holds, neighbour, removed, Entity, LayoutStrip, WorkspaceId};
use crate::systems::{target_for_frames, target_of};
use crate::world::{
    active_displays, entry_of, first_focused, focused_count, has_window,
    lemma_window_index, lemma_window_index_by_id, marked_for_reshuffle, repositioned,
    strip_holding, window_index, window_index_by_id, with_target, with_window,
    workspace_views, Active, DisplayEntry, WindowEntry, Windows, WorkspaceEntry, WorkspaceView,
    World, WorldView,
};

verus! {

/// Something the outside has to do for the model.
#[derive(Clone, Copy, Debug, PartialEq, Eq, Structural)]
pub enum Effect {
    /// Give the window the focus and raise it.
    FocusWithRaise(Entity),
    /// Give `window` the focus without raising it, taking the focus from
    /// `focused`.
    FocusWithoutRaise { window: Entity, focused: Entity },
    /// Put the mouse in the middle of the window, where it is not over the
    /// window already, or in the middle of `bounds` where no window is
    /// given.
    CenterMouse { on: Option<Entity>, bounds: IRect },
    /// Hand the event to the handlers at once.
    Trigger(WMEventTrigger),
    /// Put the event at the end of the queue.
    Send(SendMessageTrigger),
    /// A workspace became the active one: tell the model which windows the
    /// operating system has on it.
    WorkspaceActivated(Entity),
    /// A display appeared: find its dock.
    LocateDock(Entity),
    /// Stop watching the window: it is gone.
    Unobserve(Entity),
    /// Put the window's top-left corner at `origin`, seen without its
    /// padding.
    Reposition { moved: Entity, origin: Origin },
    /// Give the window the extent `size`, seen without its padding.
    Resize { sized: Entity, size: IVec2 },
    /// Leave the event loop.
    Quit,
}

/// How long a focus event for an unknown window is kept, in milliseconds.
pub const STRAY_FOCUS_RETRY_MS: u64 = 2000;

/// The window beside `e`: its left neighbour, or else its right one.
pub open spec fn beside(cols: Seq<Seq<Entity>>, e: Entity) -> Option<Entity> {
    match neighbour(cols, e, -1) {
        Some(left) => Some(left),
        None => neighbour(cols, e, 1),
    }
}

/// The window that gets the focus where `e` gives it away: the window
/// beside `e`, where the strip has more than one column and that window is
/// known; failing that, the top window of the first column, where it is
/// known.
pub open spec fn heir(windows: Seq<WindowEntry>, cols: Seq<Seq<Entity>>, e: Entity) -> Option<
    Entity,
> {
    let next = beside(cols, e);
    if cols.len() > 1 && next.is_some() && has_window(windows, next.unwrap()) {
        next
    } else if cols.len() > 0 && cols[0].len() > 0 && has_window(windows, cols[0][0]) {
        Some(cols[0][0])
    } else {
        None
    }
}

fn window_beside(strip: &LayoutStrip, entity: Entity) -> (r: Option<Entity>)
    requires
        strip.wf(),
    ensures
        r == beside(strip@, entity),
{
    match strip.left_neighbour(entity) {
        Some(left) => Some(left),
        None => strip.right_neighbour(entity),
    }
}

/// Finds the window that takes over the focus from `entity`.
pub fn focus_heir(windows: &Windows, strip: &LayoutStrip, entity: Entity) -> (r: Option<Entity>)
    requires
        strip.wf(),
    ensures
        r == heir(windows@, strip@, entity),
{
    if strip.len() > 1 {
        if let Some(neighbour) = window_beside(strip, entity) {
            if windows.get(neighbour).is_some() {
                return Some(neighbour);
            }
        }
    }
    match strip.get(0) {
        Ok(column) => match column.top() {
            Some(top) => if windows.get(top).is_some() {
                Some(top)
            } else {
                None
            },
            None => None,
        },
        Err(_) => None,
    }
}

/// The announcement that the window `e` has the focus.
pub open spec fn focus_event(windows: Seq<WindowEntry>, e: Entity) -> Effect {
    Effect::Trigger(
        WMEventTrigger(Event::WindowFocused { window_id: entry_of(windows, e).window.id }),
    )
}

impl WorldView {
    /// The model after the window `e` gave the focus away on leaving the
    /// strip at `strip`: its heir is asked to be brought into view, and
    /// what the mouse focused is forgotten. Nothing changes where there is
    /// no heir.
    pub open spec fn focus_given_away(self, e: Entity, strip: int) -> WorldView {
        match heir(self.windows, self.workspaces[strip].cols, e) {
            Some(other) => WorldView {
                windows: marked_for_reshuffle(self.windows, other),
                focus_follows_mouse: FocusFollowsMouse(None),
                ..self
            },
            None => self,
        }
    }

    /// What is announced when the window `e` gives the focus away: that
    /// its heir has the focus.
    pub open spec fn focus_heir_event(self, e: Entity, strip: int) -> Option<Effect> {
        match heir(self.windows, self.workspaces[strip].cols, e) {
            Some(other) => Some(focus_event(self.windows, other)),
            None => None,
        }
    }

    /// The model after the window `e` was given the marker `marker` that
    /// takes it out of the tiling.
    ///
    /// A window that floats is asked to take its floating frame, and the
    /// window beside it is asked to be brought into view; one that is
    /// minimized or hidden gives the focus away. Either way the window
    /// leaves the active strip. Nothing happens without an active display
    /// and workspace, or where there is no such window.
    pub open spec fn unmanaged(self, e: Entity, marker: Unmanaged) -> WorldView {
        match self.active() {
            Some(active) if has_window(self.windows, e) => {
                let cols = self.workspaces[active.strip as int].cols;
                let display = self.displays[active.display as int].display;
                let frame = entry_of(self.windows, e).window.frame;
                let before = match marker {
                    Unmanaged::Floating => {
                        let asked = with_target(
                            self.windows,
                            target_of(e, frame, floated(frame, display.bounds()).rect()),
                            display.id(),
                        );
                        WorldView {
                            windows: match beside(cols, e) {
                                Some(other) => marked_for_reshuffle(asked, other),
                                None => asked,
                            },
                            ..self
                        }
                    },
                    _ => self.focus_given_away(e, active.strip as int),
                };
                before.with_cols(active.strip as int, removed(cols, e))
            },
            _ => self,
        }
    }

    /// What is announced when the window `e` is given the marker `marker`.
    pub open spec fn unmanaged_event(self, e: Entity, marker: Unmanaged) -> Option<Effect> {
        match self.active() {
            Some(active) if has_window(self.windows, e) && marker != Unmanaged::Floating =>
                self.focus_heir_event(e, active.strip as int),
            _ => None,
        }
    }

    /// Some strip holds the window `e`.
    pub open spec fn held(self, e: Entity) -> bool {
        strip_holding(self.workspaces, e, 0) < self.workspaces.len()
    }

    /// The model after the window `e` lost the marker that kept it out of
    /// the tiling: it is put at the end of the active strip, unless a
    /// strip holds it already, and asked to be brought into view. Nothing
    /// happens without an active display and workspace.
    pub open spec fn managed(self, e: Entity) -> WorldView {
        match self.active() {
            Some(active) => {
                let joined = if self.held(e) {
                    self
                } else {
                    self.with_cols(
                        active.strip as int,
                        self.workspaces[active.strip as int].cols.push(seq![e]),
                    )
                };
                WorldView { windows: marked_for_reshuffle(self.windows, e), ..joined }
            },
            None => self,
        }
    }
}

impl World {
    /// Moves the focus away from the window `entity`, which is about to
    /// leave the strip at `strip`.
    pub fn give_away_focus(&mut self, entity: Entity, strip: usize) -> (r: Option<Effect>)
        requires
            old(self).wf(),
            strip < old(self).workspaces@.len(),
        ensures
            final(self).wf(),
            final(self)@ == old(self)@.focus_given_away(entity, strip as int),
            r == old(self)@.focus_heir_event(entity, strip as int),
    {
        match focus_heir(&self.windows, &self.workspaces[strip].strip, entity) {
            Some(other) => {
                let window_id = match self.windows.get(other) {
                    Some(window) => window.id,
                    None => 0,
                };
                self.focus_follows_mouse = FocusFollowsMouse(None);
                self.windows.reshuffle_around(other);
                Some(Effect::Trigger(WMEventTrigger(Event::WindowFocused { window_id })))
            },
            None => None,
        }
    }

    /// Does what follows from the window `entity` having just been given
    /// the marker `marker`.
    pub fn window_unmanaged_trigger(&mut self, entity: Entity, marker: Unmanaged) -> (r: Option<
        Effect,
    >)
        requires
            old(self).wf(),
        ensures
            final(self).wf(),
            final(self)@ == old(self)@.unmanaged(entity, marker),
            r == old(self)@.unmanaged_event(entity, marker),
    {
        let active = match self.active() {
            Some(active) => active,
            None => {
                return None;
            },
        };
        let entry = match self.windows.get_managed(entity) {
            Some(entry) => entry,
            None => {
                return None;
            },
        };
        let display = self.displays[active.display].display;
        let effect = match marker {
            Unmanaged::Floating => {
                let frame = entry.window.frame;
                let target = target_for_frames(entity, frame, float_frame(frame, display.bounds()));
                if let Some(size) = target.resize {
                    self.windows.resize_entity(entity, size, display.id());
                }
                if let Some(origin) = target.reposition {
                    self.windows.reposition_entity(entity, origin, display.id());
                }
                if let Some(other) = window_beside(&self.workspaces[active.strip].strip, entity) {
                    self.windows.reshuffle_around(other);
                }
                None
            },
            _ => self.give_away_focus(entity, active.strip),
        };
        self.remove_from_strip(active.strip, entity);
        effect
    }

    /// Finds the first strip that holds the window `entity`.
    pub fn strip_of(&self, entity: Entity) -> (r: Option<usize>)
        ensures
            match r {
                Some(i) => i == strip_holding(self@.workspaces, entity, 0) && i
                    < self.workspaces@.len(),
                None => strip_holding(self@.workspaces, entity, 0) == self.workspaces@.len(),
            },
    {
        let mut i: usize = 0;
        while i < self.workspaces.len()
            invariant
                i <= self.workspaces.len(),
                strip_holding(self@.workspaces, entity, 0) == strip_holding(
                    self@.workspaces,
                    entity,
                    i as int,
                ),
            decreases self.workspaces.len() - i,
        {
            assert(self@.workspaces[i as int] == self.workspaces@[i as int]@);
            if self.workspaces[i].strip.index_of(entity).is_ok() {
                return Some(i);
            }
            i += 1;
        }
        None
    }

    /// Puts the window `entity` at the end of the strip at `strip`, unless
    /// that strip holds it already.
    pub fn append_to_strip(&mut self, strip: usize, entity: Entity)
        requires
            old(self).wf(),
            strip < old(self).workspaces@.len(),
        ensures
            final(self).wf(),
            final(self)@ == old(self)@.with_cols(
                strip as int,
                crate::layout::appended(old(self)@.workspaces[strip as int].cols, entity),
            ),
    {
        let mut taken = LayoutStrip::new(0);
        assert(self.workspaces@[strip as int].strip.wf());
        std::mem::swap(&mut self.workspaces[strip].strip, &mut taken);
        taken.append(entity);
        std::mem::swap(&mut self.workspaces[strip].strip, &mut taken);
        proof {
            self.lemma_strip_changed(old(self), strip as int);
        }
    }

    /// Does what follows from the window `entity` having just lost the
    /// marker that kept it out of the tiling.
    pub fn window_managed_trigger(&mut self, entity: Entity)
        requires
            old(self).wf(),
        ensures
            final(self).wf(),
            final(self)@ == old(self)@.managed(entity),
    {
        let active = match self.active() {
            Some(active) => active,
            None => {
                return ;
            },
        };
        if self.strip_of(entity).is_none() {
            proof {
                crate::world::lemma_strip_holding(self@.workspaces, entity, 0);
            }
            self.append_to_strip(active.strip, entity);
        }
        self.windows.reshuffle_around(entity);
    }
}

impl WorldView {
    /// The model after the window `e` was given the marker `marker`: the
    /// window carries it, and where it carried none before, what follows
    /// from leaving the tiling is done.
    pub open spec fn with_unmanaged(self, e: Entity, marker: Unmanaged) -> WorldView {
        if !has_window(self.windows, e) {
            self
        } else {
            let entry = entry_of(self.windows, e);
            let marked = WorldView {
                windows: with_window(
                    self.windows,
                    e,
                    WindowEntry { unmanaged: Some(marker), ..entry },
                ),
                ..self
            };
            if entry.unmanaged.is_none() {
                marked.unmanaged(e, marker)
            } else {
                marked
            }
        }
    }

    /// What is announced when the window `e` is given the marker.
    pub open spec fn with_unmanaged_event(self, e: Entity, marker: Unmanaged) -> Option<Effect> {
        if has_window(self.windows, e) && entry_of(self.windows, e).unmanaged.is_none() {
            (WorldView {
                windows: with_window(
                    self.windows,
                    e,
                    WindowEntry { unmanaged: Some(marker), ..entry_of(self.windows, e) },
                ),
                ..self
            }).unmanaged_event(e, marker)
        } else {
            None
        }
    }

    /// The model after the marker that kept the window `e` out of the
    /// tiling was taken from it: where it carried one, it returns to the
    /// tiling.
    pub open spec fn without_unmanaged(self, e: Entity) -> WorldView {
        if has_window(self.windows, e) && entry_of(self.windows, e).unmanaged.is_some() {
            (WorldView {
                windows: with_window(
                    self.windows,
                    e,
                    WindowEntry { unmanaged: None, ..entry_of(self.windows, e) },
                ),
                ..self
            }).managed(e)
        } else {
            self
        }
    }

    /// The model after the windows of `seen` from the `k`-th on that
    /// belong to the process `pid` and were in the tiling were hidden, one
    /// after the other, with what was announced on the way added to
    /// `told`.
    pub open spec fn hidden_from(
        self,
        seen: Seq<WindowEntry>,
        pid: Pid,
        told: Seq<Effect>,
        k: int,
    ) -> (WorldView, Seq<Effect>)
        decreases seen.len() - k,
    {
        if k < 0 || k >= seen.len() {
            (self, told)
        } else if seen[k].window.pid == pid && seen[k].unmanaged.is_none() {
            let next = self.with_unmanaged(seen[k].entity, Unmanaged::Hidden);
            let more = match self.with_unmanaged_event(seen[k].entity, Unmanaged::Hidden) {
                Some(effect) => told.push(effect),
                None => told,
            };
            next.hidden_from(seen, pid, more, k + 1)
        } else {
            self.hidden_from(seen, pid, told, k + 1)
        }
    }

    /// The model after the windows of `seen` from the `k`-th on that
    /// belong to the process `pid` and were hidden returned to the tiling,
    /// one after the other.
    pub open spec fn shown_from(self, seen: Seq<WindowEntry>, pid: Pid, k: int) -> WorldView
        decreases seen.len() - k,
    {
        if k < 0 || k >= seen.len() {
            self
        } else if seen[k].window.pid == pid && seen[k].unmanaged == Some(Unmanaged::Hidden) {
            self.without_unmanaged(seen[k].entity).shown_from(seen, pid, k + 1)
        } else {
            self.shown_from(seen, pid, k + 1)
        }
    }

    /// The model after an application was hidden: its windows that were in
    /// the tiling are marked as hidden and leave it; those that floated or
    /// were minimized stay as they are.
    pub open spec fn application_hidden(self, pid: Pid) -> (WorldView, Seq<Effect>) {
        self.hidden_from(self.windows, pid, Seq::empty(), 0)
    }

    /// The model after an application was shown again: its windows that
    /// were marked as hidden lose the marker and return to the tiling.
    pub open spec fn application_visible(self, pid: Pid) -> WorldView {
        self.shown_from(self.windows, pid, 0)
    }

    /// The model after the window known as `id` was minimized.
    pub open spec fn window_minimized(self, id: WinID) -> WorldView {
        let at = window_index_by_id(self.windows, id);
        if at < self.windows.len() {
            self.with_unmanaged(self.windows[at].entity, Unmanaged::Minimized)
        } else {
            self
        }
    }

    /// What is announced when the window known as `id` is minimized.
    pub open spec fn window_minimized_event(self, id: WinID) -> Option<Effect> {
        let at = window_index_by_id(self.windows, id);
        if at < self.windows.len() {
            self.with_unmanaged_event(self.windows[at].entity, Unmanaged::Minimized)
        } else {
            None
        }
    }

    /// The model after the window known as `id` was taken out of the
    /// dock again: it returns to the tiling if minimizing it was what took
    /// it out.
    pub open spec fn window_deminimized(self, id: WinID) -> WorldView {
        let at = window_index_by_id(self.windows, id);
        if at < self.windows.len() && self.windows[at].unmanaged == Some(Unmanaged::Minimized) {
            self.without_unmanaged(self.windows[at].entity)
        } else {
            self
        }
    }
}

impl World {
    /// Gives the window `entity` the marker `marker` that takes it out of
    /// the tiling.
    pub fn insert_unmanaged(&mut self, entity: Entity, marker: Unmanaged) -> (r: Option<Effect>)
        requires
            old(self).wf(),
        ensures
            final(self).wf(),
            final(self)@ == old(self)@.with_unmanaged(entity, marker),
            r == old(self)@.with_unmanaged_event(entity, marker),
    {
        match self.windows.get_managed(entity) {
            Some(entry) => {
                self.windows.put(WindowEntry { unmanaged: Some(marker), ..entry });
                if entry.unmanaged.is_none() {
                    self.window_unmanaged_trigger(entity, marker)
                } else {
                    None
                }
            },
            None => None,
        }
    }

    /// Takes from the window `entity` the marker that keeps it out of the
    /// tiling.
    pub fn remove_unmanaged(&mut self, entity: Entity)
        requires
            old(self).wf(),
        ensures
            final(self).wf(),
            final(self)@ == old(self)@.without_unmanaged(entity),
    {
        if let Some(entry) = self.windows.get_managed(entity) {
            if entry.unmanaged.is_some() {
                self.windows.put(WindowEntry { unmanaged: None, ..entry });
                self.window_managed_trigger(entity);
            }
        }
    }

    /// Handles the report that the window known as `window_id` was
    /// minimized.
    pub fn window_minimized(&mut self, window_id: WinID) -> (r: Option<Effect>)
        requires
            old(self).wf(),
        ensures
            final(self).wf(),
            final(self)@ == old(self)@.window_minimized(window_id),
            r == old(self)@.window_minimized_event(window_id),
    {
        match self.windows.find(window_id) {
            Some(entry) => self.insert_unmanaged(entry.entity, Unmanaged::Minimized),
            None => None,
        }
    }

    /// Handles the report that the window known as `window_id` is no
    /// longer minimized.
    pub fn window_deminimized(&mut self, window_id: WinID)
        requires
            old(self).wf(),
        ensures
            final(self).wf(),
            final(self)@ == old(self)@.window_deminimized(window_id),
    {
        if let Some(entry) = self.windows.find(window_id) {
            if entry.unmanaged == Some(Unmanaged::Minimized) {
                self.remove_unmanaged(entry.entity);
            }
        }
    }

    /// Handles the report that the application `pid` was hidden.
    pub fn application_hidden(&mut self, pid: Pid) -> (r: Vec<Effect>)
        requires
            old(self).wf(),
        ensures
            final(self).wf(),
            final(self)@ == old(self)@.application_hidden(pid).0,
            r@ == old(self)@.application_hidden(pid).1,
    {
        let seen = self.windows.snapshot();
        let mut told: Vec<Effect> = Vec::new();
        let mut k: usize = 0;
        while k < seen.all.len()
            invariant
                k <= seen.all.len(),
                self.wf(),
                old(self)@.hidden_from(seen@, pid, Seq::empty(), 0) == self@.hidden_from(
                    seen@,
                    pid,
                    told@,
                    k as int,
                ),
            decreases seen.all.len() - k,
        {
            let entry = seen.all[k];
            if entry.window.pid == pid && entry.unmanaged.is_none() {
                if let Some(effect) = self.insert_unmanaged(entry.entity, Unmanaged::Hidden) {
                    told.push(effect);
                }
            }
            k += 1;
        }
        told
    }

    /// Handles the report that the application `pid` is shown again.
    pub fn application_visible(&mut self, pid: Pid)
        requires
            old(self).wf(),
        ensures
            final(self).wf(),
            final(self)@ == old(self)@.application_visible(pid),
    {
        let seen = self.windows.snapshot();
        let mut k: usize = 0;
        while k < seen.all.len()
            invariant
                k <= seen.all.len(),
                self.wf(),
                old(self)@.shown_from(seen@, pid, 0) == self@.shown_from(seen@, pid, k as int),
            decreases seen.all.len() - k,
        {
            let entry = seen.all[k];
            if entry.window.pid == pid && entry.unmanaged == Some(Unmanaged::Hidden) {
                self.remove_unmanaged(entry.entity);
            }
            k += 1;
        }
    }

    /// Mission Control came up or went away.
    pub fn mission_control_trigger(&mut self, event: &Event)
        ensures
            final(self).wf() == old(self).wf(),
            final(self)@ == (WorldView {
                mission_control: match *event {
                    Event::MissionControlShowAllWindows
                    | Event::MissionControlShowFrontWindows
                    | Event::MissionControlShowDesktop => MissionControlActive(true),
                    Event::MissionControlExit => MissionControlActive(false),
                    _ => old(self).mission_control,
                },
                ..old(self)@
            }),
    {
        match event {
            Event::MissionControlShowAllWindows
            | Event::MissionControlShowFrontWindows
            | Event::MissionControlShowDesktop => {
                self.mission_control = MissionControlActive(true);
            },
            Event::MissionControlExit => {
                self.mission_control = MissionControlActive(false);
            },
            _ => {},
        }
    }
}

/// The entity of the focused window, where exactly one window carries
/// the marker.
pub open spec fn focus_of(windows: Seq<WindowEntry>) -> Option<Entity> {
    if focused_count(windows, windows.len() as int) == 1 {
        Some(windows[first_focused(windows)].entity)
    } else {
        None
    }
}

/// A window after the focus went to the windows known as `window_id`: the
/// focused window loses the marker unless it is one of them, and every
/// other one of them gains it.
pub open spec fn refocused_entry(entry: WindowEntry, focus: Option<Entity>, window_id: WinID)
    -> WindowEntry {
    let focused = focus == Some(entry.entity);
    if focused && entry.window.id != window_id {
        WindowEntry { focused: None, ..entry }
    } else if !focused && entry.window.id == window_id {
        WindowEntry { focused: Some(FocusedMarker), ..entry }
    } else {
        entry
    }
}

/// The windows after the focus went to the windows known as `window_id`.
pub open spec fn refocused(windows: Seq<WindowEntry>, window_id: WinID) -> Seq<WindowEntry> {
    Seq::new(windows.len(), |i: int| refocused_entry(windows[i], focus_of(windows), window_id))
}

/// The top-left corner that puts a frame of extent `size` in the middle of
/// `bounds`: the center of `bounds`, each coordinate halved toward zero,
/// less half of `size`. There is none where `size` is negative or the
/// corners of the centered frame do not fit an `i32`.
pub open spec fn centered_origin(bounds: IRect, size: IVec2) -> Option<IVec2> {
    let cx = half(bounds.min.x + bounds.max.x);
    let cy = half(bounds.min.y + bounds.max.y);
    if size.x >= 0 && size.y >= 0 && fits_i32(bounds.min.x + bounds.max.x) && fits_i32(
        bounds.min.y + bounds.max.y,
    ) && fits_i32(cx - size.x / 2) && fits_i32(cy - size.y / 2) && fits_i32(cx + size.x / 2)
        && fits_i32(cy + size.y / 2) {
        Some(IVec2 { x: (cx - size.x / 2) as i32, y: (cy - size.y / 2) as i32 })
    } else {
        None
    }
}

pub fn sum_fits(a: i32, b: i32) -> (r: bool)
    ensures
        r == fits_i32(a + b),
{
    let sum: i64 = a as i64 + b as i64;
    -0x8000_0000 <= sum && sum <= 0x7fff_ffff
}

pub fn difference_fits(a: i32, b: i32) -> (r: bool)
    ensures
        r == fits_i32(a - b),
{
    let difference: i64 = a as i64 - b as i64;
    -0x8000_0000 <= difference && difference <= 0x7fff_ffff
}

/// Finds where a frame of extent `size` has to start to be in the middle
/// of `bounds`.
pub fn center_origin(bounds: IRect, size: IVec2) -> (r: Option<Origin>)
    ensures
        r == centered_origin(bounds, size),
{
    if size.x < 0 || size.y < 0 || !sum_fits(bounds.min.x, bounds.max.x) || !sum_fits(
        bounds.min.y,
        bounds.max.y,
    ) {
        return None;
    }
    let center = bounds.center();
    let half_width = size.x / 2;
    let half_height = size.y / 2;
    if !difference_fits(center.x, half_width) || !difference_fits(center.y, half_height)
        || !sum_fits(center.x, half_width) || !sum_fits(center.y, half_height) {
        return None;
    }
    Some(IRect::from_center_size(center, size).min)
}

/// The extent of a frame, where it is not negative and fits an `i32`.
pub open spec fn extent_of(frame: IRect) -> Option<IVec2> {
    if frame.valid() {
        Some(IVec2 { x: frame.spec_width() as i32, y: frame.spec_height() as i32 })
    } else {
        None
    }
}

/// The extent of a frame that is sound.
pub fn frame_extent(frame: &IRect) -> (r: Option<IVec2>)
    ensures
        r == extent_of(*frame),
{
    if frame.min.x <= frame.max.x && frame.min.y <= frame.max.y && difference_fits(
        frame.max.x,
        frame.min.x,
    ) && difference_fits(frame.max.y, frame.min.y) {
        Some(frame.size())
    } else {
        None
    }
}

/// The extent of a frame as far as `i32` can say it, be it negative.
pub fn frame_extent_wide(frame: &IRect) -> (r: Option<IVec2>)
    ensures
        r == (if fits_i32(frame.spec_width()) && fits_i32(frame.spec_height()) {
            Some(IVec2 { x: frame.spec_width() as i32, y: frame.spec_height() as i32 })
        } else {
            None
        }),
{
    if difference_fits(frame.max.x, frame.min.x) && difference_fits(frame.max.y, frame.min.y) {
        Some(frame.size())
    } else {
        None
    }
}

/// Where a window with the frame `frame` has to start to be in the middle
/// of `bounds`, if anywhere.
pub open spec fn centered_frame_origin(bounds: IRect, frame: IRect) -> Option<IVec2> {
    match extent_of(frame) {
        Some(size) => centered_origin(bounds, size),
        None => None,
    }
}

/// Finds where a window with the frame `frame` has to start to be in the
/// middle of `bounds`.
pub fn center_frame_origin(bounds: IRect, frame: &IRect) -> (r: Option<Origin>)
    ensures
        r == centered_frame_origin(bounds, *frame),
{
    match frame_extent(frame) {
        Some(size) => center_origin(bounds, size),
        None => None,
    }
}

impl Windows {
    /// Moves the focus marker to the windows known as `window_id`.
    pub fn refocus(&mut self, window_id: WinID)
        ensures
            final(self)@ == refocused(old(self)@, window_id),
    {
        let focus = match self.focused() {
            Some(entry) => Some(entry.entity),
            None => None,
        };
        let n = self.all.len();
        let mut i: usize = 0;
        while i < n
            invariant
                i <= n,
                n == self@.len(),
                n == old(self)@.len(),
                focus == focus_of(old(self)@),
                forall|j: int|
                    0 <= j < i ==> self@[j] == refocused_entry(old(self)@[j], focus, window_id),
                forall|j: int| i <= j < n ==> self@[j] == old(self)@[j],
            decreases n - i,
        {
            let entry = self.all[i];
            let focused = match focus {
                Some(e) => e == entry.entity,
                None => false,
            };
            if focused && entry.window.id != window_id {
                self.all.set(i, WindowEntry { focused: None, ..entry });
            } else if !focused && entry.window.id == window_id {
                self.all.set(i, WindowEntry { focused: Some(FocusedMarker), ..entry });
            }
            i += 1;
        }
        assert(self@ =~= refocused(old(self)@, window_id));
    }
}

/// The timeout of a focus event that waits for its window.
pub open spec fn stray_focus_timeout() -> Timeout {
    Timeout { timer: Timer { duration: STRAY_FOCUS_RETRY_MS, elapsed: 0 }, message: None }
}

impl WorldView {
    /// The model after the focus went to the window known as `window_id`,
    /// whose application is in front or not as `frontmost` says (nothing
    /// where the application is not known).
    ///
    /// Without an active display and workspace nothing happens. A window
    /// that is not known yet has the event kept for a while. Otherwise the
    /// focus marker moves. Where the application is in front, the window is
    /// brought into view, unless the layout is to be left alone or the
    /// model is still initializing, and is centered first where that is
    /// asked for and it is managed. At last the request to leave the
    /// layout alone is dropped, unless the focus came from the mouse, and
    /// the note of that is dropped too.
    pub open spec fn window_focused(self, window_id: WinID, frontmost: Option<bool>) -> WorldView {
        let at = window_index_by_id(self.windows, window_id);
        if self.active().is_none() {
            self
        } else if at >= self.windows.len() {
            WorldView {
                stray_focus: self.stray_focus.push(
                    (stray_focus_timeout(), StrayFocusEvent(window_id)),
                ),
                ..self
            }
        } else {
            let moved = refocused(self.windows, window_id);
            if frontmost != Some(true) {
                WorldView { windows: moved, ..self }
            } else {
                let display = self.displays[self.active().unwrap().display as int].display;
                let entry = self.windows[at];
                let e = entry.entity;
                let marked = with_window(
                    moved,
                    e,
                    WindowEntry { focused: Some(FocusedMarker), ..entry_of(moved, e) },
                );
                let middle = centered_frame_origin(display.bounds(), entry.window.frame);
                let shown = if !self.skip_reshuffle.0 && self.initializing.is_none() {
                    let centered = if self.config.auto_center() && has_window(marked, e)
                        && entry_of(marked, e).unmanaged.is_none() && middle.is_some() {
                        repositioned(
                            marked,
                            e,
                            display.spec_absolute(middle.unwrap()),
                            display.id(),
                        )
                    } else {
                        marked
                    };
                    marked_for_reshuffle(centered, e)
                } else {
                    marked
                };
                WorldView {
                    windows: shown,
                    skip_reshuffle: if self.focus_follows_mouse.0.is_none() {
                        SkipReshuffle(false)
                    } else {
                        self.skip_reshuffle
                    },
                    focus_follows_mouse: FocusFollowsMouse(None),
                    ..self
                }
            }
        }
    }

    /// Whether the mouse is to follow the focus to the window known as
    /// `id`: where that is configured, the layout is not to be left alone,
    /// and the window did not get the focus from the mouse.
    pub open spec fn mouse_follows(self, id: WinID) -> bool {
        self.config.mouse_follows_focus() && !self.skip_reshuffle.0
            && self.focus_follows_mouse.0 != Some(id)
    }

    /// What the outside is asked when the window `e` has just gained the
    /// focus marker: to put the mouse on it, or in the middle of the
    /// display where focused windows are centered anyway.
    pub open spec fn center_mouse(self, e: Entity) -> Option<Effect> {
        match self.active() {
            Some(active) if has_window(self.windows, e) && self.mouse_follows(
                entry_of(self.windows, e).window.id,
            ) => Some(
                Effect::CenterMouse {
                    on: if self.config.auto_center() {
                        None
                    } else {
                        Some(e)
                    },
                    bounds: self.displays[active.display as int].display.bounds(),
                },
            ),
            _ => None,
        }
    }

    /// What is asked for the first `k` windows of the model that carry the
    /// focus marker and did not carry it in `before`.
    pub open spec fn center_mouse_effects(self, before: Seq<WindowEntry>, k: int) -> Seq<Effect>
        decreases k,
    {
        if k <= 0 {
            Seq::empty()
        } else {
            let so_far = self.center_mouse_effects(before, k - 1);
            if k <= before.len() && k <= self.windows.len() && before[k - 1].focused.is_none()
                && self.windows[k - 1].focused.is_some() && self.center_mouse(
                self.windows[k - 1].entity,
            ).is_some() {
                so_far.push(self.center_mouse(self.windows[k - 1].entity).unwrap())
            } else {
                so_far
            }
        }
    }

    /// The model after the application in front changed: nothing changes
    /// where the application knows which of its windows has the focus;
    /// else the focused window loses the marker, and what the mouse
    /// focused is forgotten.
    pub open spec fn front_switched(self, focused_window: Option<WinID>) -> WorldView {
        let focus = focus_of(self.windows);
        if focused_window.is_none() && focus.is_some() {
            WorldView {
                windows: with_window(
                    self.windows,
                    focus.unwrap(),
                    WindowEntry { focused: None, ..entry_of(self.windows, focus.unwrap()) },
                ),
                focus_follows_mouse: FocusFollowsMouse(None),
                ..self
            }
        } else {
            self
        }
    }
}

impl World {
    /// Handles the report that the window known as `window_id` has the
    /// focus. Returns what the outside has to do for the windows that
    /// gained the focus marker.
    pub fn window_focused_trigger(&mut self, window_id: WinID, frontmost: Option<bool>) -> (r: Vec<
        Effect,
    >)
        requires
            old(self).wf(),
        ensures
            final(self).wf(),
            final(self)@ == old(self)@.window_focused(window_id, frontmost),
            r@ == final(self)@.center_mouse_effects(
                old(self)@.windows,
                final(self)@.windows.len() as int,
            ),
    {
        let before = self.windows.snapshot();
        self.focus_window(window_id, frontmost);
        let mut told: Vec<Effect> = Vec::new();
        let n = self.windows.all.len();
        let mut k: usize = 0;
        while k < n
            invariant
                k <= n,
                n == self.windows@.len(),
                before@ == old(self)@.windows,
                told@ == self@.center_mouse_effects(before@, k as int),
            decreases n - k,
        {
            if k < before.all.len() && before.all[k].focused.is_none()
                && self.windows.all[k].focused.is_some() {
                if let Some(effect) = self.center_mouse_trigger(self.windows.all[k].entity) {
                    told.push(effect);
                }
            }
            k += 1;
        }
        told
    }

    /// Decides whether the mouse is to be put on the window `entity`,
    /// which has just gained the focus marker.
    pub fn center_mouse_trigger(&self, entity: Entity) -> (r: Option<Effect>)
        ensures
            r == self@.center_mouse(entity),
    {
        let active = match self.active() {
            Some(active) => active,
            None => {
                return None;
            },
        };
        let window = match self.windows.get(entity) {
            Some(window) => window,
            None => {
                return None;
            },
        };
        let by_mouse = match self.focus_follows_mouse.0 {
            Some(id) => id == window.id,
            None => false,
        };
        if self.config.mouse_follows_focus() && !self.skip_reshuffle.0 && !by_mouse {
            Some(
                Effect::CenterMouse {
                    on: if self.config.auto_center() {
                        None
                    } else {
                        Some(entity)
                    },
                    bounds: self.displays[active.display].display.bounds(),
                },
            )
        } else {
            None
        }
    }

    fn focus_window(&mut self, window_id: WinID, frontmost: Option<bool>)
        requires
            old(self).wf(),
        ensures
            final(self).wf(),
            final(self)@ == old(self)@.window_focused(window_id, frontmost),
    {
        let active = match self.active() {
            Some(active) => active,
            None => {
                return ;
            },
        };
        proof {
            lemma_window_index_by_id(self.windows@, window_id);
        }
        let entry = match self.windows.find(window_id) {
            Some(entry) => entry,
            None => {
                self.stray_focus.push(
                    (Timeout::new(STRAY_FOCUS_RETRY_MS, None), StrayFocusEvent(window_id)),
                );
                return ;
            },
        };
        self.windows.refocus(window_id);
        if frontmost != Some(true) {
            return ;
        }
        let entity = entry.entity;
        if let Some(now) = self.windows.get_managed(entity) {
            self.windows.put(WindowEntry { focused: Some(FocusedMarker), ..now });
        }
        if !self.skip_reshuffle.0 && self.initializing.is_none() {
            let display = self.displays[active.display].display;
            if self.config.auto_center() {
                let managed = match self.windows.get_managed(entity) {
                    Some(now) => now.unmanaged.is_none(),
                    None => false,
                };
                if managed {
                    if let Some(origin) = center_frame_origin(
                        display.bounds(),
                        &entry.window.frame,
                    ) {
                        self.windows.reposition_entity(
                            entity,
                            display.absolute_coords(origin),
                            display.id(),
                        );
                    }
                }
            }
            self.windows.reshuffle_around(entity);
        }
        if self.focus_follows_mouse.0.is_none() {
            self.skip_reshuffle = SkipReshuffle(false);
        }
        self.focus_follows_mouse = FocusFollowsMouse(None);
    }

    /// Handles the report that another application came to the front,
    /// given the window that this application says has its focus, if it
    /// says. That window is announced as focused; where the application
    /// does not say, the focus marker is taken from the focused window.
    pub fn front_switched_trigger(&mut self, focused_window: Option<WinID>) -> (r: Option<Effect>)
        requires
            old(self).wf(),
        ensures
            final(self).wf(),
            final(self)@ == old(self)@.front_switched(focused_window),
            r == (match focused_window {
                Some(window_id) => Some(
                    Effect::Trigger(WMEventTrigger(Event::WindowFocused { window_id })),
                ),
                None => None,
            }),
    {
        match focused_window {
            Some(window_id) => Some(
                Effect::Trigger(WMEventTrigger(Event::WindowFocused { window_id })),
            ),
            None => {
                if let Some(entry) = self.windows.focused() {
                    self.focus_follows_mouse = FocusFollowsMouse(None);
                    if let Some(now) = self.windows.get_managed(entry.entity) {
                        self.windows.put(WindowEntry { focused: None, ..now });
                    }
                }
                None
            },
        }
    }
}

/// How long a window counts as dragged after the mouse last dragged it,
/// in milliseconds.
pub const DRAG_MARKER_TIMEOUT_MS: u64 = 1000;

/// A display after the active display became the one known as `id`.
pub open spec fn display_marked(entry: DisplayEntry, id: DisplayId) -> DisplayEntry {
    DisplayEntry {
        active: if entry.display.id() == id {
            Some(ActiveDisplayMarker)
        } else {
            None
        },
        ..entry
    }
}

/// A workspace after the active workspace became the one known as `id`.
pub open spec fn workspace_marked(entry: WorkspaceView, id: WorkspaceId) -> WorkspaceView {
    WorkspaceView {
        active: if entry.id == id {
            Some(ActiveWorkspaceMarker)
        } else {
            None
        },
        ..entry
    }
}

/// For each of the first `k` workspaces that is the one known as `id` and
/// was not active, the notice that it became active.
pub open spec fn activated(workspaces: Seq<WorkspaceView>, id: WorkspaceId, k: int) -> Seq<Effect>
    decreases k,
{
    if k <= 0 {
        Seq::empty()
    } else if workspaces[k - 1].id == id && workspaces[k - 1].active.is_none() {
        activated(workspaces, id, k - 1).push(Effect::WorkspaceActivated(workspaces[k - 1].entity))
    } else {
        activated(workspaces, id, k - 1)
    }
}

/// Whether a swipe that travelled `delta` of the width of a display
/// `width` pixels wide moves anything: whether it travelled a pixel.
pub open spec fn swipe_moves(delta: Ratio, width: int) -> bool {
    delta.ppm() * width >= RATIO_ONE || delta.ppm() * width <= -RATIO_ONE
}

impl WorldView {
    /// The model after the window `e` left the first strip that held it.
    pub open spec fn window_removed(self, e: Entity) -> WorldView {
        let strip = strip_holding(self.workspaces, e, 0);
        if strip < self.workspaces.len() {
            self.with_cols(strip, removed(self.workspaces[strip].cols, e))
        } else {
            self
        }
    }

    /// The model after the window known as `id` was destroyed: it gives
    /// the focus away, leaves its strip and is forgotten. Nothing happens
    /// without an active display and workspace or where no such window is
    /// known.
    pub open spec fn window_destroyed(self, id: WinID) -> WorldView {
        let at = window_index_by_id(self.windows, id);
        match self.active() {
            Some(active) if at < self.windows.len() => {
                let e = self.windows[at].entity;
                let left = self.focus_given_away(e, active.strip as int).without_unmanaged(
                    e,
                ).window_removed(e);
                WorldView {
                    windows: if has_window(left.windows, e) {
                        left.windows.remove(window_index(left.windows, e))
                    } else {
                        left.windows
                    },
                    ..left
                }
            },
            _ => self,
        }
    }

    /// What the outside is asked when the window known as `id` is
    /// destroyed: to stop watching it, and to hear who has the focus now.
    pub open spec fn window_destroyed_effects(self, id: WinID) -> Seq<Effect> {
        let at = window_index_by_id(self.windows, id);
        match self.active() {
            Some(active) if at < self.windows.len() => {
                let e = self.windows[at].entity;
                match self.focus_heir_event(e, active.strip as int) {
                    Some(effect) => seq![Effect::Unobserve(e), effect],
                    None => seq![Effect::Unobserve(e)],
                }
            },
            _ => Seq::empty(),
        }
    }

    /// The window that the mouse, now over the window known as `at`,
    /// gives the focus: that window, where the focus follows the mouse,
    /// Mission Control is away, the mouse did not focus a window just
    /// before, and the window is known and does not have the focus.
    pub open spec fn mouse_focus(self, at: Option<WinID>) -> Option<WindowEntry> {
        let focus = focus_of(self.windows);
        if !self.config.focus_follows_mouse() || self.mission_control.0
            || self.focus_follows_mouse.0.is_some() || at.is_none() || (focus.is_some()
            && self.windows[first_focused(self.windows)].window.id == at.unwrap())
            || window_index_by_id(self.windows, at.unwrap()) >= self.windows.len() {
            None
        } else {
            Some(self.windows[window_index_by_id(self.windows, at.unwrap())])
        }
    }

    /// The model after the mouse moved over the window known as `at`:
    /// where that gives the window the focus, the layout is to be left
    /// alone and the window is noted as focused by the mouse.
    pub open spec fn mouse_moved(self, at: Option<WinID>) -> WorldView {
        match self.mouse_focus(at) {
            Some(entry) => WorldView {
                skip_reshuffle: SkipReshuffle(true),
                focus_follows_mouse: FocusFollowsMouse(Some(entry.window.id)),
                ..self
            },
            None => self,
        }
    }

    /// What the outside is asked when the mouse gives a window the focus:
    /// to focus it without raising it where another window has the focus,
    /// and else to focus and raise it.
    pub open spec fn mouse_moved_effect(self, at: Option<WinID>) -> Option<Effect> {
        match self.mouse_focus(at) {
            Some(entry) => match focus_of(self.windows) {
                Some(focus) => Some(
                    Effect::FocusWithoutRaise { window: entry.entity, focused: focus },
                ),
                None => Some(Effect::FocusWithRaise(entry.entity)),
            },
            None => None,
        }
    }

    /// The model after the mouse was pressed on the window known as `at`:
    /// a window that starts left of the display or ends right of it is
    /// asked to be brought into view. Nothing happens while Mission
    /// Control is up or without an active display and workspace.
    pub open spec fn mouse_down(self, at: Option<WinID>) -> WorldView {
        match self.active() {
            Some(active) if !self.mission_control.0 && at.is_some() && window_index_by_id(
                self.windows,
                at.unwrap(),
            ) < self.windows.len() => {
                let entry = self.windows[window_index_by_id(self.windows, at.unwrap())];
                let frame = entry.window.frame;
                let width = self.displays[active.display as int].display.bounds().spec_width();
                if frame.min.x < 0 || frame.min.x > crate::ratio::saturated(width)
                    - crate::ratio::saturated(frame.spec_width()) {
                    WorldView { windows: marked_for_reshuffle(self.windows, entry.entity), ..self }
                } else {
                    self
                }
            },
            _ => self,
        }
    }

    /// The model after the mouse dragged the window known as `at`: the
    /// window is noted as dragged on the active display for a while; a
    /// window that is noted already keeps its time.
    pub open spec fn mouse_dragged(self, at: Option<WinID>) -> WorldView {
        match self.active() {
            Some(active) if !self.mission_control.0 && at.is_some() && window_index_by_id(
                self.windows,
                at.unwrap(),
            ) < self.windows.len() => {
                let e = self.windows[window_index_by_id(self.windows, at.unwrap())].entity;
                let display_id = self.displays[active.display as int].display.id();
                let fresh = (
                    Timeout {
                        timer: Timer { duration: DRAG_MARKER_TIMEOUT_MS, elapsed: 0 },
                        message: None,
                    },
                    WindowDraggedMarker { entity: e, display_id },
                );
                match self.dragged {
                    Some((timeout, marker)) => if marker.entity != e {
                        WorldView {
                            dragged: Some(
                                (
                                    Timeout {
                                        timer: Timer { elapsed: 0, ..timeout.timer },
                                        ..timeout
                                    },
                                    WindowDraggedMarker { entity: e, display_id },
                                ),
                            ),
                            ..self
                        }
                    } else {
                        self
                    },
                    None => WorldView { dragged: Some(fresh), ..self },
                }
            },
            _ => self,
        }
    }

    /// The model after the active display became the one known as `id`:
    /// the displays known as `id` carry the marker and no other does.
    /// Where no display is known as `id` the markers stay where they are.
    pub open spec fn display_changed(self, id: Option<DisplayId>) -> WorldView {
        match id {
            Some(id) if crate::animation::display_index(self.displays, id, 0)
                < self.displays.len() => WorldView {
                displays: Seq::new(
                    self.displays.len(),
                    |i: int| display_marked(self.displays[i], id),
                ),
                ..self
            },
            _ => self,
        }
    }

    /// The model after the active workspace became the one known as
    /// `id`: the workspaces known as `id` carry the marker and no other
    /// does. Nothing happens unless exactly one display is active, and
    /// where no workspace is known as `id` the markers stay where they
    /// are.
    pub open spec fn workspace_changed(self, id: Option<WorkspaceId>) -> WorldView {
        if id.is_some() && active_displays(self.displays, self.displays.len() as int) == 1
            && crate::commands::workspace_index(self.workspaces, id.unwrap(), 0)
            < self.workspaces.len() {
            WorldView {
                workspaces: Seq::new(
                    self.workspaces.len(),
                    |i: int| workspace_marked(self.workspaces[i], id.unwrap()),
                ),
                ..self
            }
        } else {
            self
        }
    }

    /// What the outside is asked when the active workspace changes: to
    /// tell the model the windows on each workspace that became active.
    pub open spec fn workspace_changed_effects(self, id: Option<WorkspaceId>) -> Seq<Effect> {
        if id.is_some() && active_displays(self.displays, self.displays.len() as int) == 1
            && crate::commands::workspace_index(self.workspaces, id.unwrap(), 0)
            < self.workspaces.len() {
            activated(self.workspaces, id.unwrap(), self.workspaces.len() as int)
        } else {
            Seq::empty()
        }
    }

    /// The model after a swipe with `fingers` fingers that travelled
    /// `delta` of the display's width: the focused window is marked with
    /// it, where swipes with so many fingers scroll the strip and the
    /// swipe travelled a pixel at least.
    pub open spec fn swiped(self, fingers: usize, delta: Ratio) -> WorldView {
        match (self.active(), focus_of(self.windows)) {
            (Some(active), Some(focus)) if self.config.spec_options().swipe_gesture_fingers
                == Some(fingers) && swipe_moves(
                delta,
                crate::ratio::saturated(
                    self.displays[active.display as int].display.bounds().spec_width(),
                ),
            ) => WorldView {
                windows: with_window(
                    self.windows,
                    focus,
                    WindowEntry {
                        swipe: Some(WindowSwipeMarker(delta)),
                        ..entry_of(self.windows, focus)
                    },
                ),
                ..self
            },
            _ => self,
        }
    }
}

impl World {
    /// Takes the window `entity` out of the first strip that holds it.
    pub fn window_removal_trigger(&mut self, entity: Entity)
        requires
            old(self).wf(),
        ensures
            final(self).wf(),
            final(self)@ == old(self)@.window_removed(entity),
    {
        if let Some(strip) = self.strip_of(entity) {
            self.remove_from_strip(strip, entity);
        }
    }

    /// Handles the report that the window known as `window_id` was
    /// destroyed.
    pub fn window_destroyed_trigger(&mut self, window_id: WinID) -> (r: Vec<Effect>)
        requires
            old(self).wf(),
        ensures
            final(self).wf(),
            final(self)@ == old(self)@.window_destroyed(window_id),
            r@ == old(self)@.window_destroyed_effects(window_id),
    {
        let mut told: Vec<Effect> = Vec::new();
        let active = match self.active() {
            Some(active) => active,
            None => {
                return told;
            },
        };
        proof {
            lemma_window_index_by_id(self.windows@, window_id);
        }
        let entity = match self.windows.find(window_id) {
            Some(entry) => entry.entity,
            None => {
                return told;
            },
        };
        told.push(Effect::Unobserve(entity));
        if let Some(effect) = self.give_away_focus(entity, active.strip) {
            told.push(effect);
        }
        self.remove_unmanaged(entity);
        self.window_removal_trigger(entity);
        if let Some(i) = self.windows.position(entity) {
            self.windows.all.remove(i);
        }
        told
    }

    fn mouse_focus(&self, at: Option<WinID>) -> (r: Option<WindowEntry>)
        ensures
            r == self@.mouse_focus(at),
    {
        if !self.config.focus_follows_mouse() || self.mission_control.0
            || self.focus_follows_mouse.0.is_some() {
            return None;
        }
        let window_id = match at {
            Some(window_id) => window_id,
            None => {
                return None;
            },
        };
        if let Some(entry) = self.windows.focused() {
            if entry.window.id == window_id {
                return None;
            }
        }
        self.windows.find(window_id)
    }

    /// Handles the report that the mouse moved, given the window that is
    /// under it, if any is.
    pub fn mouse_moved_trigger(&mut self, at: Option<WinID>) -> (r: Option<Effect>)
        requires
            old(self).wf(),
        ensures
            final(self).wf(),
            final(self)@ == old(self)@.mouse_moved(at),
            r == old(self)@.mouse_moved_effect(at),
    {
        match self.mouse_focus(at) {
            Some(entry) => {
                self.skip_reshuffle = SkipReshuffle(true);
                self.focus_follows_mouse = FocusFollowsMouse(Some(entry.window.id));
                match self.windows.focused() {
                    Some(focused) => Some(
                        Effect::FocusWithoutRaise { window: entry.entity, focused: focused.entity },
                    ),
                    None => Some(Effect::FocusWithRaise(entry.entity)),
                }
            },
            None => None,
        }
    }

    /// Handles the report that a mouse button was pressed, given the
    /// window that is under the mouse, if any is.
    pub fn mouse_down_trigger(&mut self, at: Option<WinID>)
        requires
            old(self).wf(),
        ensures
            final(self).wf(),
            final(self)@ == old(self)@.mouse_down(at),
    {
        let active = match self.active() {
            Some(active) => active,
            None => {
                return ;
            },
        };
        if self.mission_control.0 {
            return ;
        }
        let entry = match at {
            Some(window_id) => match self.windows.find(window_id) {
                Some(entry) => entry,
                None => {
                    return ;
                },
            },
            None => {
                return ;
            },
        };
        let display = self.displays[active.display].display;
        if entry.window.frame.min.x < 0 || entry.window.frame.min.x as i64 > display.width() as i64
            - entry.window.width() as i64 {
            self.windows.reshuffle_around(entry.entity);
        }
    }

    /// Handles the report that the mouse dragged something, given the
    /// window that is under the mouse, if any is.
    pub fn mouse_dragged_trigger(&mut self, at: Option<WinID>)
        requires
            old(self).wf(),
        ensures
            final(self).wf(),
            final(self)@ == old(self)@.mouse_dragged(at),
    {
        let active = match self.active() {
            Some(active) => active,
            None => {
                return ;
            },
        };
        if self.mission_control.0 {
            return ;
        }
        let entity = match at {
            Some(window_id) => match self.windows.find(window_id) {
                Some(entry) => entry.entity,
                None => {
                    return ;
                },
            },
            None => {
                return ;
            },
        };
        let display_id = self.displays[active.display].display.id();
        match self.dragged {
            Some((timeout, marker)) => {
                if marker.entity != entity {
                    let mut timer = timeout.timer;
                    timer.reset();
                    self.dragged = Some(
                        (
                            Timeout { timer, message: timeout.message },
                            WindowDraggedMarker { entity, display_id },
                        ),
                    );
                }
            },
            None => {
                self.dragged = Some(
                    (
                        Timeout::new(DRAG_MARKER_TIMEOUT_MS, None),
                        WindowDraggedMarker { entity, display_id },
                    ),
                );
            },
        }
    }

    /// Handles the report that the active display changed, given the
    /// display that the operating system says is active, if it says.
    /// The active workspace has to be looked at next.
    pub fn display_change_trigger(&mut self, active_id: Option<DisplayId>) -> (r: Option<Effect>)
        requires
            old(self).wf(),
        ensures
            final(self).wf(),
            final(self)@ == old(self)@.display_changed(active_id),
            r == (if active_id.is_some() {
                Some(Effect::Trigger(WMEventTrigger(Event::SpaceChanged)))
            } else {
                None
            }),
    {
        let id = match active_id {
            Some(id) => id,
            None => {
                return None;
            },
        };
        if self.find_display(id).is_none() {
            return Some(Effect::Trigger(WMEventTrigger(Event::SpaceChanged)));
        }
        let n = self.displays.len();
        let mut i: usize = 0;
        while i < n
            invariant
                i <= n,
                n == self.displays@.len(),
                n == old(self).displays@.len(),
                self.wf(),
                self@ == (WorldView { displays: self.displays@, ..old(self)@ }),
                forall|j: int|
                    0 <= j < i ==> self.displays@[j] == display_marked(old(self).displays@[j], id),
                forall|j: int| i <= j < n ==> self.displays@[j] == old(self).displays@[j],
            decreases n - i,
        {
            let entry = self.displays[i];
            self.displays.set(
                i,
                DisplayEntry {
                    active: if entry.display.id() == id {
                        Some(ActiveDisplayMarker)
                    } else {
                        None
                    },
                    ..entry
                },
            );
            i += 1;
        }
        assert(self@.displays =~= old(self)@.display_changed(active_id).displays);
        Some(Effect::Trigger(WMEventTrigger(Event::SpaceChanged)))
    }

    /// Handles the report that the active workspace changed, given the
    /// workspace that the operating system says is shown on the active
    /// display, if it says.
    pub fn workspace_change_trigger(&mut self, workspace_id: Option<WorkspaceId>) -> (r: Vec<
        Effect,
    >)
        requires
            old(self).wf(),
        ensures
            final(self).wf(),
            final(self)@ == old(self)@.workspace_changed(workspace_id),
            r@ == old(self)@.workspace_changed_effects(workspace_id),
    {
        let mut told: Vec<Effect> = Vec::new();
        let id = match workspace_id {
            Some(id) => id,
            None => {
                return told;
            },
        };
        if !self.one_active_display() || self.find_workspace(id).is_none() {
            return told;
        }
        let n = self.workspaces.len();
        let mut i: usize = 0;
        while i < n
            invariant
                i <= n,
                n == self.workspaces@.len(),
                n == old(self).workspaces@.len(),
                self.wf(),
                self.windows == old(self).windows,
                self.displays == old(self).displays,
                self.stray_focus == old(self).stray_focus,
                self.dragged == old(self).dragged,
                self.skip_reshuffle == old(self).skip_reshuffle,
                self.mission_control == old(self).mission_control,
                self.focus_follows_mouse == old(self).focus_follows_mouse,
                self.poll_for_notifications == old(self).poll_for_notifications,
                self.initializing == old(self).initializing,
                self.config == old(self).config,
                self.watched_space == old(self).watched_space,
                self.next_entity == old(self).next_entity,
                told@ == activated(old(self)@.workspaces, id, i as int),
                forall|j: int|
                    0 <= j < i ==> (#[trigger] self.workspaces@[j])@ == workspace_marked(
                        old(self).workspaces@[j]@,
                        id,
                    ),
                forall|j: int| i <= j < n ==> self.workspaces@[j] == old(self).workspaces@[j],
            decreases n - i,
        {
            assert(old(self)@.workspaces[i as int] == old(self).workspaces@[i as int]@);
            assert(self.workspaces@[i as int].strip.wf());
            let ghost before = self.workspaces@;
            let matches = self.workspaces[i].strip.id() == id;
            if matches && self.workspaces[i].active.is_none() {
                told.push(Effect::WorkspaceActivated(self.workspaces[i].entity));
            }
            self.workspaces[i].active = if matches {
                Some(ActiveWorkspaceMarker)
            } else {
                None
            };
            proof {
                assert forall|j: int| 0 <= j < n implies (#[trigger] self.workspaces@[j]).strip.wf(
                ) by {
                    if j != i {
                        assert(self.workspaces@[j] == before[j]);
                        assert(before[j].strip.wf());
                    }
                }
            }
            i += 1;
        }
        assert(self@.workspaces =~= old(self)@.workspace_changed(workspace_id).workspaces);
        told
    }

    /// Whether exactly one display carries the marker of the active one.
    pub fn one_active_display(&self) -> (r: bool)
        ensures
            r == (active_displays(self.displays@, self.displays@.len() as int) == 1),
    {
        let mut count: usize = 0;
        let mut i: usize = 0;
        while i < self.displays.len()
            invariant
                i <= self.displays.len(),
                count <= i,
                count == active_displays(self.displays@, i as int),
            decreases self.displays.len() - i,
        {
            if self.displays[i].active.is_some() {
                count += 1;
            }
            i += 1;
        }
        count == 1
    }

    /// Handles a swipe with `fingers` fingers that travelled `delta` of
    /// the display's width.
    pub fn swipe_gesture_trigger(&mut self, fingers: usize, delta: Ratio)
        requires
            old(self).wf(),
        ensures
            final(self).wf(),
            final(self)@ == old(self)@.swiped(fingers, delta),
    {
        let active = match self.active() {
            Some(active) => active,
            None => {
                return ;
            },
        };
        let focus = match self.windows.focused() {
            Some(entry) => entry.entity,
            None => {
                return ;
            },
        };
        match self.config.swipe_gesture_fingers() {
            Some(wanted) => {
                if wanted != fingers {
                    return ;
                }
            },
            None => {
                return ;
            },
        }
        let width = self.displays[active.display].display.width();
        assert(-0x8000_0000 * 0x8000_0000 <= delta.0 * width <= 0x8000_0000 * 0x8000_0000)
            by (nonlinear_arith)
            requires
                -0x8000_0000 <= delta.0 <= 0x7fff_ffff,
                -0x8000_0000 <= width <= 0x7fff_ffff,
        ;
        let travelled: i64 = delta.0 as i64 * width as i64;
        if travelled < 1_000_000 && travelled > -1_000_000 {
            return ;
        }
        if let Some(entry) = self.windows.get_managed(focus) {
            self.windows.put(WindowEntry { swipe: Some(WindowSwipeMarker(delta)), ..entry });
        }
    }
}

impl WorldView {
    /// The model after a report about a window that was minimized or
    /// taken out of the dock, or an application that was hidden or shown,
    /// and what is announced. Other reports change nothing.
    pub open spec fn application_message(self, event: Event) -> (WorldView, Seq<Effect>) {
        match event {
            Event::WindowMinimized { window_id } => (
                self.window_minimized(window_id),
                match self.window_minimized_event(window_id) {
                    Some(effect) => seq![effect],
                    None => Seq::empty(),
                },
            ),
            Event::WindowDeminimized { window_id } => (
                self.window_deminimized(window_id),
                Seq::empty(),
            ),
            Event::ApplicationHidden { pid } => self.application_hidden(pid),
            Event::ApplicationVisible { pid } => (self.application_visible(pid), Seq::empty()),
            _ => (self, Seq::empty()),
        }
    }
}

impl World {
    /// Handles the reports about windows that are minimized or taken out
    /// of the dock and about applications that are hidden or shown.
    pub fn dispatch_application_messages(&mut self, event: &Event) -> (r: Vec<Effect>)
        requires
            old(self).wf(),
        ensures
            final(self).wf(),
            (final(self)@, r@) == old(self)@.application_message(*event),
    {
        match *event {
            Event::WindowMinimized { window_id } => {
                let mut told: Vec<Effect> = Vec::new();
                if let Some(effect) = self.window_minimized(window_id) {
                    told.push(effect);
                    assert(told@ =~= seq![effect]);
                }
                told
            },
            Event::WindowDeminimized { window_id } => {
                self.window_deminimized(window_id);
                Vec::new()
            },
            Event::ApplicationHidden { pid } => self.application_hidden(pid),
            Event::ApplicationVisible { pid } => {
                self.application_visible(pid);
                Vec::new()
            },
            _ => Vec::new(),
        }
    }
}

} // verus!
