//! Displays and workspaces that come and go, and the passing of time.

use std::collections::HashMap;
use vstd::prelude::*;
use crate::animation::display_index;
use crate::ecs::{
    DisplayId, Event, Timeout, TimeoutReason, Timer, Unmanaged, WMEventTrigger, WinID,
};
use crate::geometry::IVec2;
use crate::layout::{flattened, holds, removed, Entity, LayoutStrip, WorkspaceId};
use crate::setup::found_windows;
use crate::world::{strip_holding, with_window};
use crate::manager::Display;
use crate::ratio::saturated;
use crate::systems::point;
use crate::triggers::Effect;
use crate::commands::workspace_index;
use crate::world::{
    entry_of, has_window, managed_index_by_id, marked_for_reshuffle, repositioned, resized,
    window_index_by_id, workspace_views, DisplayEntry, WindowEntry, WorkspaceEntry,
    WorkspaceView, World, WorldView,
};

verus! {

/// How long a workspace that lost its display is kept, in milliseconds.
pub const ORPHANED_SPACES_TIMEOUT_MS: u64 = 30_000;

/// A timer after `delta` milliseconds passed.
pub open spec fn timer_ticked(timer: Timer, delta: u64) -> Timer {
    Timer {
        elapsed: if timer.elapsed >= timer.duration {
            timer.elapsed
        } else if timer.elapsed + delta >= timer.duration {
            timer.duration
        } else {
            (timer.elapsed + delta) as u64
        },
        ..timer
    }
}

/// A timeout after `delta` milliseconds passed.
pub open spec fn timeout_ticked(timeout: Timeout, delta: u64) -> Timeout {
    Timeout { timer: timer_ticked(timeout.timer, delta), ..timeout }
}

/// The workspaces from the `i`-th on after `delta` milliseconds passed:
/// one whose time has run out is gone, the time of the others runs on.
pub open spec fn workspaces_ticked(workspaces: Seq<WorkspaceView>, delta: u64, i: int) -> Seq<
    WorkspaceView,
>
    decreases workspaces.len() - i,
{
    if i < 0 || i >= workspaces.len() {
        workspaces
    } else {
        match workspaces[i].timeout {
            Some(timeout) => if timeout.timer.is_finished() {
                workspaces_ticked(workspaces.remove(i), delta, i)
            } else {
                workspaces_ticked(
                    workspaces.update(
                        i,
                        WorkspaceView {
                            timeout: Some(timeout_ticked(timeout, delta)),
                            ..workspaces[i]
                        },
                    ),
                    delta,
                    i + 1,
                )
            },
            None => workspaces_ticked(workspaces, delta, i + 1),
        }
    }
}

/// The waiting focus events from the `i`-th on after `delta`
/// milliseconds passed.
pub open spec fn stray_ticked(
    stray: Seq<(Timeout, crate::ecs::StrayFocusEvent)>,
    delta: u64,
    i: int,
) -> Seq<(Timeout, crate::ecs::StrayFocusEvent)>
    decreases stray.len() - i,
{
    if i < 0 || i >= stray.len() {
        stray
    } else if stray[i].0.timer.is_finished() {
        stray_ticked(stray.remove(i), delta, i)
    } else {
        stray_ticked(stray.update(i, (timeout_ticked(stray[i].0, delta), stray[i].1)), delta, i + 1)
    }
}

impl WorldView {
    /// The model after `delta` milliseconds passed: what waited with a
    /// deadline that has passed is gone, be it a focus event, the note
    /// of a dragged window or an orphaned workspace; the time of
    /// everything else that waits runs on.
    pub open spec fn ticked(self, delta: u64) -> WorldView {
        WorldView {
            workspaces: workspaces_ticked(self.workspaces, delta, 0),
            stray_focus: stray_ticked(self.stray_focus, delta, 0),
            dragged: match self.dragged {
                Some((timeout, marker)) => if timeout.timer.is_finished() {
                    None
                } else {
                    Some((timeout_ticked(timeout, delta), marker))
                },
                None => None,
            },
            ..self
        }
    }

    /// The model after the window that was dragged was let go long
    /// enough: it is asked to be brought into view.
    pub open spec fn drag_settled(self) -> WorldView {
        match self.dragged {
            Some((timeout, marker)) if timeout.timer.is_finished() => WorldView {
                windows: marked_for_reshuffle(self.windows, marker.entity),
                ..self
            },
            _ => self,
        }
    }

    /// The model after the display known as `id` went away: its empty
    /// workspaces go with it, the others become orphans that are kept for
    /// a while. Nothing happens where no such display is known.
    pub open spec fn display_removed(self, id: DisplayId) -> WorldView {
        let at = display_index(self.displays, id, 0);
        if at >= self.displays.len() {
            self
        } else {
            WorldView {
                displays: self.displays.remove(at),
                workspaces: orphaned_from(self.workspaces, self.displays[at].entity, 0),
                ..self
            }
        }
    }

    /// The model after the display known as `id` was found to have
    /// changed: it is what the operating system says of it now.
    pub open spec fn display_moved(self, id: DisplayId, now: Option<Display>) -> WorldView {
        let at = display_index(self.displays, id, 0);
        if at < self.displays.len() && now.is_some() {
            WorldView {
                displays: self.displays.update(
                    at,
                    DisplayEntry { display: now.unwrap(), ..self.displays[at] },
                ),
                ..self
            }
        } else {
            self
        }
    }
}

/// The workspaces from the `i`-th on after the display `parent` went
/// away.
pub open spec fn orphaned_from(workspaces: Seq<WorkspaceView>, parent: Entity, i: int) -> Seq<
    WorkspaceView,
>
    decreases workspaces.len() - i,
{
    if i < 0 || i >= workspaces.len() {
        workspaces
    } else if workspaces[i].parent != Some(parent) {
        orphaned_from(workspaces, parent, i + 1)
    } else if workspaces[i].cols.len() == 0 {
        orphaned_from(workspaces.remove(i), parent, i)
    } else {
        orphaned_from(
            workspaces.update(
                i,
                WorkspaceView {
                    parent: None,
                    timeout: Some(
                        Timeout {
                            timer: Timer { duration: ORPHANED_SPACES_TIMEOUT_MS, elapsed: 0 },
                            message: Some(TimeoutReason::OrphanedStrip(workspaces[i].id)),
                        },
                    ),
                    ..workspaces[i]
                },
            ),
            parent,
            i + 1,
        )
    }
}

/// What the watcher of displays reports: that the active display
/// changed, where the display that the operating system says is active
/// is known but not marked; that a display was added, where it is not
/// known; and in both cases, for every one of the first `k` known
/// displays that is not among the present ones, that it was removed.
/// Nothing where the active display is marked.
pub open spec fn display_changes(
    displays: Seq<DisplayEntry>,
    current: DisplayId,
    present: Seq<DisplayId>,
    k: int,
) -> Seq<Effect>
    decreases k,
{
    let at = display_index(displays, current, 0);
    if at < displays.len() && displays[at].active.is_some() {
        Seq::empty()
    } else if k <= 0 {
        if at < displays.len() {
            seq![Effect::Trigger(WMEventTrigger(Event::DisplayChanged))]
        } else {
            seq![Effect::Trigger(WMEventTrigger(Event::DisplayAdded { display_id: current }))]
        }
    } else {
        let before = display_changes(displays, current, present, k - 1);
        if present.contains(displays[k - 1].display.id()) {
            before
        } else {
            before.push(
                Effect::Trigger(
                    WMEventTrigger(
                        Event::DisplayRemoved { display_id: displays[k - 1].display.id() },
                    ),
                ),
            )
        }
    }
}

fn contains_display(present: &Vec<DisplayId>, id: DisplayId) -> (r: bool)
    ensures
        r == present@.contains(id),
{
    let mut i: usize = 0;
    while i < present.len()
        invariant
            i <= present.len(),
            forall|j: int| 0 <= j < i ==> present@[j] != id,
        decreases present.len() - i,
    {
        if present[i] == id {
            return true;
        }
        i += 1;
    }
    false
}

impl World {
    /// Lets `delta` milliseconds pass.
    pub fn timeout_ticker(&mut self, delta: u64)
        requires
            old(self).wf(),
        ensures
            final(self).wf(),
            final(self)@ == old(self)@.ticked(delta),
    {
        self.dragged = match self.dragged {
            Some((timeout, marker)) => {
                if timeout.timer.is_finished() {
                    None
                } else {
                    let mut timer = timeout.timer;
                    timer.tick(delta);
                    Some((Timeout { timer, message: timeout.message }, marker))
                }
            },
            None => None,
        };
        let mut i: usize = 0;
        while i < self.stray_focus.len()
            invariant
                i <= self.stray_focus.len(),
                self.wf(),
                self@ == (WorldView {
                    stray_focus: self.stray_focus@,
                    dragged: old(self)@.ticked(delta).dragged,
                    ..old(self)@
                }),
                stray_ticked(old(self).stray_focus@, delta, 0) == stray_ticked(
                    self.stray_focus@,
                    delta,
                    i as int,
                ),
            decreases self.stray_focus.len() - i,
        {
            let waiting = self.stray_focus[i];
            if waiting.0.timer.is_finished() {
                self.stray_focus.remove(i);
            } else {
                let mut timer = waiting.0.timer;
                timer.tick(delta);
                self.stray_focus.set(
                    i,
                    (Timeout { timer, message: waiting.0.message }, waiting.1),
                );
                i += 1;
            }
        }
        let ghost start = self@;
        let mut k: usize = 0;
        while k < self.workspaces.len()
            invariant
                k <= self.workspaces.len(),
                self.wf(),
                self@ == (WorldView { workspaces: self@.workspaces, ..start }),
                workspaces_ticked(start.workspaces, delta, 0) == workspaces_ticked(
                    self@.workspaces,
                    delta,
                    k as int,
                ),
            decreases self.workspaces.len() - k,
        {
            assert(self@.workspaces[k as int] == self.workspaces@[k as int]@);
            let ghost before = self.workspaces@;
            match self.workspaces[k].timeout {
                Some(timeout) => {
                    if timeout.timer.is_finished() {
                        self.workspaces.remove(k);
                        proof {
                            assert(self@.workspaces =~= workspace_views(before).remove(k as int));
                            assert forall|j: int| 0 <= j < self.workspaces@.len() implies (
                            #[trigger] self.workspaces@[j]).strip.wf() by {
                                if j < k {
                                    assert(self.workspaces@[j] == before[j]);
                                } else {
                                    assert(self.workspaces@[j] == before[j + 1]);
                                }
                            }
                        }
                    } else {
                        let mut timer = timeout.timer;
                        timer.tick(delta);
                        self.workspaces[k].timeout = Some(
                            Timeout { timer, message: timeout.message },
                        );
                        proof {
                            assert(self@.workspaces =~= workspace_views(before).update(
                                k as int,
                                WorkspaceView {
                                    timeout: Some(timeout_ticked(timeout, delta)),
                                    ..before[k as int]@
                                },
                            ));
                            assert forall|j: int| 0 <= j < self.workspaces@.len() implies (
                            #[trigger] self.workspaces@[j]).strip.wf() by {
                                if j != k {
                                    assert(self.workspaces@[j] == before[j]);
                                }
                                assert(before[j].strip.wf());
                            }
                        }
                        k += 1;
                    }
                },
                None => {
                    k += 1;
                },
            }
        }
    }

    /// Brings the window that was dragged back into the layout once it
    /// has been let go long enough.
    pub fn reposition_dragged_window(&mut self)
        requires
            old(self).wf(),
        ensures
            final(self).wf(),
            final(self)@ == old(self)@.drag_settled(),
    {
        if let Some((timeout, marker)) = self.dragged {
            if timeout.timer.is_finished() {
                self.windows.reshuffle_around(marker.entity);
            }
        }
    }

    /// Takes the display known as `display_id` out of the store.
    pub fn remove_display(&mut self, display_id: DisplayId) -> (r: Effect)
        requires
            old(self).wf(),
        ensures
            final(self).wf(),
            final(self)@ == old(self)@.display_removed(display_id),
            r == Effect::Trigger(WMEventTrigger(Event::DisplayChanged)),
    {
        let done = Effect::Trigger(WMEventTrigger(Event::DisplayChanged));
        let at = match self.find_display(display_id) {
            Some(at) => at,
            None => {
                return done;
            },
        };
        let parent = self.displays[at].entity;
        self.displays.remove(at);
        let ghost start = self@;
        let mut k: usize = 0;
        while k < self.workspaces.len()
            invariant
                k <= self.workspaces.len(),
                self.wf(),
                self@ == (WorldView { workspaces: self@.workspaces, ..start }),
                orphaned_from(start.workspaces, parent, 0) == orphaned_from(
                    self@.workspaces,
                    parent,
                    k as int,
                ),
            decreases self.workspaces.len() - k,
        {
            assert(self@.workspaces[k as int] == self.workspaces@[k as int]@);
            let ghost before = self.workspaces@;
            if self.workspaces[k].parent != Some(parent) {
                k += 1;
            } else if self.workspaces[k].strip.len() == 0 {
                self.workspaces.remove(k);
                proof {
                    assert(self@.workspaces =~= workspace_views(before).remove(k as int));
                    assert forall|j: int| 0 <= j < self.workspaces@.len() implies (
                    #[trigger] self.workspaces@[j]).strip.wf() by {
                        if j < k {
                            assert(self.workspaces@[j] == before[j]);
                        } else {
                            assert(self.workspaces@[j] == before[j + 1]);
                        }
                    }
                }
            } else {
                let id = self.workspaces[k].strip.id();
                self.workspaces[k].parent = None;
                self.workspaces[k].timeout = Some(
                    Timeout::new(
                        ORPHANED_SPACES_TIMEOUT_MS,
                        Some(TimeoutReason::OrphanedStrip(id)),
                    ),
                );
                proof {
                    assert(self@.workspaces =~= workspace_views(before).update(
                        k as int,
                        WorkspaceView {
                            parent: None,
                            timeout: Some(
                                Timeout {
                                    timer: Timer {
                                        duration: ORPHANED_SPACES_TIMEOUT_MS,
                                        elapsed: 0,
                                    },
                                    message: Some(TimeoutReason::OrphanedStrip(id)),
                                },
                            ),
                            ..before[k as int]@
                        },
                    ));
                    assert forall|j: int| 0 <= j < self.workspaces@.len() implies (
                    #[trigger] self.workspaces@[j]).strip.wf() by {
                        if j != k {
                            assert(self.workspaces@[j] == before[j]);
                        }
                        assert(before[j].strip.wf());
                    }
                }
                k += 1;
            }
        }
        done
    }

    /// Takes in what the operating system says of the display known as
    /// `display_id` now.
    pub fn move_display(&mut self, display_id: DisplayId, now: Option<Display>) -> (r: Effect)
        requires
            old(self).wf(),
        ensures
            final(self).wf(),
            final(self)@ == old(self)@.display_moved(display_id, now),
            r == Effect::Trigger(WMEventTrigger(Event::DisplayChanged)),
    {
        if let Some(at) = self.find_display(display_id) {
            if let Some(display) = now {
                let entry = self.displays[at];
                self.displays.set(at, DisplayEntry { display, ..entry });
            }
        }
        Effect::Trigger(WMEventTrigger(Event::DisplayChanged))
    }

    /// Compares the displays that are known with the display that the
    /// operating system says is active and with those it says are
    /// present, and reports what changed.
    pub fn display_changes_watcher(&self, current: Option<DisplayId>, present: &Vec<DisplayId>)
        -> (r: Vec<Effect>)
        ensures
            r@ == (match current {
                Some(id) => display_changes(
                    self.displays@,
                    id,
                    present@,
                    self.displays@.len() as int,
                ),
                None => Seq::empty(),
            }),
    {
        let mut told: Vec<Effect> = Vec::new();
        let id = match current {
            Some(id) => id,
            None => {
                return told;
            },
        };
        match self.find_display(id) {
            Some(at) => {
                if self.displays[at].active.is_some() {
                    return told;
                }
                told.push(Effect::Trigger(WMEventTrigger(Event::DisplayChanged)));
            },
            None => {
                told.push(
                    Effect::Trigger(WMEventTrigger(Event::DisplayAdded { display_id: id })),
                );
            },
        }
        let mut k: usize = 0;
        while k < self.displays.len()
            invariant
                k <= self.displays.len(),
                told@ == display_changes(self.displays@, id, present@, k as int),
                !(display_index(self.displays@, id, 0) < self.displays@.len()
                    && self.displays@[display_index(self.displays@, id, 0)].active.is_some()),
            decreases self.displays.len() - k,
        {
            let display_id = self.displays[k].display.id();
            if !contains_display(present, display_id) {
                told.push(Effect::Trigger(WMEventTrigger(Event::DisplayRemoved { display_id })));
            }
            k += 1;
        }
        told
    }
}

/// What the operating system says of the displays that are present: each
/// display with the workspaces on it.
pub open spec fn present_views(present: Seq<(Display, Vec<WorkspaceId>)>) -> Seq<
    (Display, Seq<WorkspaceId>),
> {
    Seq::new(present.len(), |i: int| (present[i].0, present[i].1@))
}

/// Index of the first present display at or after `from` that is known
/// as `id`, or the number of present displays.
pub open spec fn present_index(present: Seq<(Display, Seq<WorkspaceId>)>, id: DisplayId, from: int)
    -> int
    decreases present.len() - from,
{
    if from < 0 || from >= present.len() {
        present.len() as int
    } else if present[from].0.id() == id {
        from
    } else {
        present_index(present, id, from + 1)
    }
}

impl WorldView {
    /// The model after the workspaces `spaces` from the `k`-th on entered
    /// it on the display `parent`, the one known as `active` being the
    /// active one, if any is; with the notices of that added to `told`.
    /// No workspace enters once the entities have run out.
    pub open spec fn workspaces_added(
        self,
        spaces: Seq<WorkspaceId>,
        parent: Entity,
        active: Option<WorkspaceId>,
        told: Seq<Effect>,
        k: int,
    ) -> (WorldView, Seq<Effect>)
        decreases spaces.len() - k,
    {
        if k < 0 || k >= spaces.len() || self.next_entity == u64::MAX {
            (self, told)
        } else {
            let marked = active == Some(spaces[k]);
            self.with_workspace(spaces[k], Some(parent), marked).workspaces_added(
                spaces,
                parent,
                active,
                if marked {
                    told.push(Effect::WorkspaceActivated(self.next_entity))
                } else {
                    told
                },
                k + 1,
            )
        }
    }

    /// The model after the displays `present` from the `k`-th on entered
    /// it with their workspaces, and what the outside is asked on the
    /// way: to find the dock of each display, and to say which windows
    /// are on the active workspace.
    ///
    /// The display known as `active_id` is the active one, the workspace
    /// known as `active_space` the active one. Without an active
    /// workspace the first display enters without workspaces and no other
    /// display enters.
    pub open spec fn displays_gathered(
        self,
        active_id: DisplayId,
        present: Seq<(Display, Seq<WorkspaceId>)>,
        active_space: Option<WorkspaceId>,
        told: Seq<Effect>,
        k: int,
    ) -> (WorldView, Seq<Effect>)
        decreases present.len() - k,
    {
        if k < 0 || k >= present.len() || self.next_entity == u64::MAX {
            (self, told)
        } else {
            let entity = self.next_entity;
            let shown = self.with_display(present[k].0, present[k].0.id() == active_id);
            let located = told.push(Effect::LocateDock(entity));
            if active_space.is_none() {
                (shown, located)
            } else {
                let (with_spaces, more) = shown.workspaces_added(
                    present[k].1,
                    entity,
                    active_space,
                    located,
                    0,
                );
                with_spaces.displays_gathered(active_id, present, active_space, more, k + 1)
            }
        }
    }

    /// The model after the display known as `id` appeared: it enters
    /// with its workspaces, none of them marked as active. Nothing
    /// happens where the operating system does not list such a display.
    pub open spec fn display_added(self, id: DisplayId, present: Seq<(Display, Seq<WorkspaceId>)>)
        -> WorldView {
        let at = present_index(present, id, 0);
        if at >= present.len() || self.next_entity == u64::MAX {
            self
        } else {
            self.with_display(present[at].0, false).workspaces_added(
                present[at].1,
                self.next_entity,
                None,
                Seq::empty(),
                0,
            ).0
        }
    }
}

impl World {
    fn add_workspaces(
        &mut self,
        spaces: &Vec<WorkspaceId>,
        parent: Entity,
        active: Option<WorkspaceId>,
        told: &mut Vec<Effect>,
    )
        requires
            old(self).wf(),
        ensures
            final(self).wf(),
            (final(self)@, final(told)@) == old(self)@.workspaces_added(
                spaces@,
                parent,
                active,
                old(told)@,
                0,
            ),
    {
        let mut k: usize = 0;
        while k < spaces.len()
            invariant
                k <= spaces.len(),
                self.wf(),
                old(self)@.workspaces_added(spaces@, parent, active, old(told)@, 0)
                    == self@.workspaces_added(spaces@, parent, active, told@, k as int),
            decreases spaces.len() - k,
        {
            let marked = active == Some(spaces[k]);
            match self.add_workspace(spaces[k], Some(parent), marked) {
                Some(entity) => {
                    if marked {
                        told.push(Effect::WorkspaceActivated(entity));
                    }
                },
                None => {
                    return ;
                },
            }
            k += 1;
        }
    }

    /// Lets the displays that are present at startup into the store, with
    /// their workspaces.
    pub fn gather_displays(
        &mut self,
        active_display_id: Option<DisplayId>,
        present: &Vec<(Display, Vec<WorkspaceId>)>,
        active_space: Option<WorkspaceId>,
    ) -> (r: Vec<Effect>)
        requires
            old(self).wf(),
        ensures
            final(self).wf(),
            match active_display_id {
                Some(id) => (final(self)@, r@) == old(self)@.displays_gathered(
                    id,
                    present_views(present@),
                    active_space,
                    Seq::empty(),
                    0,
                ),
                None => final(self)@ == old(self)@ && r@.len() == 0,
            },
    {
        let mut told: Vec<Effect> = Vec::new();
        let active_id = match active_display_id {
            Some(id) => id,
            None => {
                return told;
            },
        };
        let ghost views = present_views(present@);
        let mut k: usize = 0;
        while k < present.len()
            invariant
                k <= present.len(),
                self.wf(),
                active_display_id == Some(active_id),
                views == present_views(present@),
                old(self)@.displays_gathered(active_id, views, active_space, Seq::empty(), 0)
                    == self@.displays_gathered(active_id, views, active_space, told@, k as int),
            decreases present.len() - k,
        {
            assert(views[k as int] == (present@[k as int].0, present@[k as int].1@));
            let display = present[k].0;
            let entity = match self.add_display(display, display.id() == active_id) {
                Some(entity) => entity,
                None => {
                    return told;
                },
            };
            told.push(Effect::LocateDock(entity));
            if active_space.is_none() {
                return told;
            }
            self.add_workspaces(&present[k].1, entity, active_space, &mut told);
            k += 1;
        }
        told
    }

    /// Lets the display known as `display_id`, which appeared, into the
    /// store, given what the operating system says is present.
    pub fn display_added(&mut self, display_id: DisplayId, present: &Vec<(Display, Vec<WorkspaceId>)>)
        -> (r: Effect)
        requires
            old(self).wf(),
        ensures
            final(self).wf(),
            final(self)@ == old(self)@.display_added(display_id, present_views(present@)),
            r == Effect::Trigger(WMEventTrigger(Event::DisplayChanged)),
    {
        let ghost views = present_views(present@);
        let mut k: usize = 0;
        while k < present.len()
            invariant
                k <= present.len(),
                self.wf(),
                self@ == old(self)@,
                views == present_views(present@),
                present_index(views, display_id, 0) == present_index(views, display_id, k as int),
            decreases present.len() - k,
        {
            assert(views[k as int] == (present@[k as int].0, present@[k as int].1@));
            if present[k].0.id() == display_id {
                if let Some(entity) = self.add_display(present[k].0, false) {
                    let mut told: Vec<Effect> = Vec::new();
                    self.add_workspaces(&present[k].1, entity, None, &mut told);
                }
                return Effect::Trigger(WMEventTrigger(Event::DisplayChanged));
            }
            k += 1;
        }
        Effect::Trigger(WMEventTrigger(Event::DisplayChanged))
    }
}

/// The windows after the first `k` windows of `all` that are known were
/// asked to take the share of the width of the display `display` that
/// they had of the display they were on, and its height.
pub open spec fn ratios_refreshed(
    windows: Seq<WindowEntry>,
    all: Seq<Entity>,
    display: Display,
    k: int,
) -> Seq<WindowEntry>
    decreases k,
{
    if k <= 0 {
        windows
    } else {
        let before = ratios_refreshed(windows, all, display, k - 1);
        let e = all[k - 1];
        if has_window(before, e) {
            resized(
                before,
                e,
                point(
                    saturated(
                        entry_of(before, e).window.width_ratio.spec_of(
                            saturated(display.bounds().spec_width()),
                        ),
                    ),
                    saturated(display.bounds().spec_height()),
                ),
                display.id(),
            )
        } else {
            before
        }
    }
}

/// Whether one of the windows `all` is known by the identifier `id`.
pub open spec fn among(windows: Seq<WindowEntry>, all: Seq<Entity>, id: WinID, k: int) -> bool
    decreases k,
{
    if k <= 0 {
        false
    } else {
        among(windows, all, id, k - 1) || (has_window(windows, all[k - 1]) && entry_of(
            windows,
            all[k - 1],
        ).window.id == id)
    }
}

/// The windows after those of the first `k` windows known by `ids` that
/// float and are not among the windows `all` were asked to move to the
/// top-left corner of the display `display`.
pub open spec fn floating_called(
    windows: Seq<WindowEntry>,
    seen: Seq<WindowEntry>,
    all: Seq<Entity>,
    ids: Seq<WinID>,
    display: Display,
    k: int,
) -> Seq<WindowEntry>
    decreases k,
{
    if k <= 0 {
        windows
    } else {
        let before = floating_called(windows, seen, all, ids, display, k - 1);
        let at = window_index_by_id(seen, ids[k - 1]);
        if !among(seen, all, ids[k - 1], all.len() as int) && at < seen.len() && has_window(
            seen,
            seen[at].entity,
        ) && entry_of(seen, seen[at].entity).unmanaged == Some(Unmanaged::Floating) {
            repositioned(
                before,
                seen[at].entity,
                display.spec_absolute(IVec2 { x: 0, y: 0 }),
                display.id(),
            )
        } else {
            before
        }
    }
}

/// Index of the first workspace at or after `from` that is on a display
/// and known as `id`, or the number of workspaces.
pub open spec fn home_index(workspaces: Seq<WorkspaceView>, id: WorkspaceId, from: int) -> int
    decreases workspaces.len() - from,
{
    if from < 0 || from >= workspaces.len() {
        workspaces.len() as int
    } else if workspaces[from].parent.is_some() && workspaces[from].id == id {
        from
    } else {
        home_index(workspaces, id, from + 1)
    }
}

/// The workspaces after the window `e` moved to the workspace known as
/// `id`: every workspace lets go of it, and the first workspace on a
/// display that is known as `id` takes it in at its end.
pub open spec fn window_rehomed(workspaces: Seq<WorkspaceView>, e: Entity, id: WorkspaceId) -> Seq<
    WorkspaceView,
> {
    Seq::new(
        workspaces.len(),
        |i: int|
            WorkspaceView {
                cols: if i == home_index(workspaces, id, 0) {
                    removed(workspaces[i].cols, e).push(seq![e])
                } else {
                    removed(workspaces[i].cols, e)
                },
                ..workspaces[i]
            },
    )
}

/// Of the first `k` identifiers, the entities of the managed windows
/// known by them that the columns `cols` do not hold; in order.
pub open spec fn newcomers(
    windows: Seq<WindowEntry>,
    ids: Seq<WinID>,
    cols: Seq<Seq<Entity>>,
    k: int,
) -> Seq<Entity>
    decreases k,
{
    if k <= 0 {
        Seq::empty()
    } else {
        let at = managed_index_by_id(windows, ids[k - 1]);
        let before = newcomers(windows, ids, cols, k - 1);
        if at < windows.len() && !holds(cols, windows[at].entity) {
            before.push(windows[at].entity)
        } else {
            before
        }
    }
}

impl WorldView {
    /// The model after the workspace that is shown on the active display
    /// was looked at: it is noted.
    pub open spec fn space_watched(self, space: Option<WorkspaceId>) -> WorldView {
        match space {
            Some(id) if self.active().is_some() => WorldView { watched_space: id, ..self },
            _ => self,
        }
    }

    /// The model after the orphaned workspace at `orphan` found the
    /// display again on which the workspace at `fresh` of the same name
    /// had been put: the orphan takes the place of that workspace on the
    /// display, with its columns as they are, and waits no longer; its
    /// windows are asked to take their share of the new display; and the
    /// floating windows that the operating system has on the workspace
    /// are called to that display.
    pub open spec fn orphan_adopted(self, fresh: int, orphan: int, ids: Seq<WinID>) -> WorldView {
        if !self.adoptable(fresh, orphan) {
            self
        } else {
            let parent = self.workspaces[fresh].parent.unwrap();
            let display = self.displays[crate::displays::display_entity_index(
                self.displays,
                parent,
                0,
            )].display;
            let all = flattened(self.workspaces[orphan].cols);
            let sized = ratios_refreshed(self.windows, all, display, all.len() as int);
            WorldView {
                windows: floating_called(sized, self.windows, all, ids, display, ids.len() as int),
                workspaces: self.workspaces.update(
                    orphan,
                    WorkspaceView {
                        parent: Some(parent),
                        timeout: None,
                        ..self.workspaces[orphan]
                    },
                ).remove(fresh),
                ..self
            }
        }
    }

    /// Whether the workspace at `orphan` is an orphan that can take the
    /// place of the workspace at `fresh`: the two are known by the same
    /// name, the one has no display, and the other a display that is
    /// known.
    pub open spec fn adoptable(self, fresh: int, orphan: int) -> bool {
        &&& 0 <= fresh < self.workspaces.len()
        &&& 0 <= orphan < self.workspaces.len()
        &&& fresh != orphan
        &&& self.workspaces[orphan].parent.is_none()
        &&& self.workspaces[fresh].parent.is_some()
        &&& self.workspaces[fresh].id == self.workspaces[orphan].id
        &&& display_entity_index(self.displays, self.workspaces[fresh].parent.unwrap(), 0)
            < self.displays.len()
    }

    /// The model after the windows `moved` from the `k`-th on moved to the
    /// workspace known as `id`, and were asked to be brought into view.
    pub open spec fn windows_rehomed(self, moved: Seq<Entity>, id: WorkspaceId, k: int)
        -> WorldView
        decreases moved.len() - k,
    {
        if k < 0 || k >= moved.len() {
            self
        } else {
            (WorldView {
                windows: marked_for_reshuffle(self.windows, moved[k]),
                workspaces: window_rehomed(self.workspaces, moved[k], id),
                ..self
            }).windows_rehomed(moved, id, k + 1)
        }
    }

    /// The model after the workspace `strip` became the active one and
    /// the operating system said which windows are on it: the managed
    /// windows among them that the strip does not hold move to it.
    /// Nothing happens where the workspace is not known or has no
    /// display, or the operating system does not say.
    pub open spec fn workspace_activated(self, strip: Entity, ids: Option<Seq<WinID>>)
        -> WorldView {
        let at = workspace_entity_index(self.workspaces, strip, 0);
        if at >= self.workspaces.len() || self.workspaces[at].parent.is_none() || ids.is_none() {
            self
        } else {
            self.windows_rehomed(
                newcomers(
                    self.windows,
                    ids.unwrap(),
                    self.workspaces[at].cols,
                    ids.unwrap().len() as int,
                ),
                self.workspaces[at].id,
                0,
            )
        }
    }
}

/// Index of the first display at or after `from` whose entity is `e`, or
/// the number of displays.
pub open spec fn display_entity_index(displays: Seq<DisplayEntry>, e: Entity, from: int) -> int
    decreases displays.len() - from,
{
    if from < 0 || from >= displays.len() {
        displays.len() as int
    } else if displays[from].entity == e {
        from
    } else {
        display_entity_index(displays, e, from + 1)
    }
}

/// Index of the first workspace at or after `from` whose entity is `e`,
/// or the number of workspaces.
pub open spec fn workspace_entity_index(workspaces: Seq<WorkspaceView>, e: Entity, from: int)
    -> int
    decreases workspaces.len() - from,
{
    if from < 0 || from >= workspaces.len() {
        workspaces.len() as int
    } else if workspaces[from].entity == e {
        from
    } else {
        workspace_entity_index(workspaces, e, from + 1)
    }
}

impl World {
    /// Looks at the workspace that the operating system says is shown on
    /// the active display, if it says, and reports whether it changed.
    pub fn workspace_change_watcher(&mut self, space: Option<WorkspaceId>) -> (r: Option<Effect>)
        requires
            old(self).wf(),
        ensures
            final(self).wf(),
            final(self)@ == old(self)@.space_watched(space),
            r == (match space {
                Some(id) if old(self)@.active().is_some() && id != old(self).watched_space => Some(
                    Effect::Trigger(WMEventTrigger(Event::SpaceChanged)),
                ),
                _ => None,
            }),
    {
        if self.active().is_none() {
            return None;
        }
        match space {
            Some(id) => {
                if self.watched_space != id {
                    self.watched_space = id;
                    Some(Effect::Trigger(WMEventTrigger(Event::SpaceChanged)))
                } else {
                    None
                }
            },
            None => None,
        }
    }

    /// Finds the display whose entity is `entity`.
    pub fn find_display_entity(&self, entity: Entity) -> (r: Option<usize>)
        ensures
            match r {
                Some(i) => i == display_entity_index(self.displays@, entity, 0) && i
                    < self.displays@.len(),
                None => display_entity_index(self.displays@, entity, 0) == self.displays@.len(),
            },
    {
        let mut i: usize = 0;
        while i < self.displays.len()
            invariant
                i <= self.displays.len(),
                display_entity_index(self.displays@, entity, 0) == display_entity_index(
                    self.displays@,
                    entity,
                    i as int,
                ),
            decreases self.displays.len() - i,
        {
            if self.displays[i].entity == entity {
                return Some(i);
            }
            i += 1;
        }
        None
    }

    /// Finds the workspace whose entity is `entity`.
    pub fn find_workspace_entity(&self, entity: Entity) -> (r: Option<usize>)
        ensures
            match r {
                Some(i) => i == workspace_entity_index(self@.workspaces, entity, 0) && i
                    < self.workspaces@.len(),
                None => workspace_entity_index(self@.workspaces, entity, 0)
                    == self.workspaces@.len(),
            },
    {
        let mut i: usize = 0;
        while i < self.workspaces.len()
            invariant
                i <= self.workspaces.len(),
                workspace_entity_index(self@.workspaces, entity, 0) == workspace_entity_index(
                    self@.workspaces,
                    entity,
                    i as int,
                ),
            decreases self.workspaces.len() - i,
        {
            assert(self@.workspaces[i as int] == self.workspaces@[i as int]@);
            if self.workspaces[i].entity == entity {
                return Some(i);
            }
            i += 1;
        }
        None
    }

    /// Finds the first workspace on a display for which an orphan of the
    /// same name waits, and the first such orphan.
    pub fn next_orphan(&self) -> (r: Option<(usize, usize)>)
        ensures
            r == (match self@.next_adoption() {
                Some((fresh, orphan)) => Some((fresh as usize, orphan as usize)),
                None => None,
            }),
            r matches Some((fresh, orphan)) ==> self@.next_adoption() == Some(
                (fresh as int, orphan as int),
            ) && self@.adoptable(fresh as int, orphan as int),
    {
        let r = self.first_adoptable_pair();
        proof {
            match r {
                Some((fresh, orphan)) => {
                    lemma_next_adoption(self@, fresh as int, orphan as int);
                },
                None => {
                    assert forall|f: int, o: int| !#[trigger] self@.first_adoptable(f, o) by {
                        assert(!self@.adoptable(f, o));
                    }
                },
            }
        }
        r
    }

    fn first_adoptable_pair(&self) -> (r: Option<(usize, usize)>)
        ensures
            match r {
                Some((fresh, orphan)) => self@.first_adoptable(fresh as int, orphan as int),
                None => forall|f: int, o: int| !#[trigger] self@.adoptable(f, o),
            },
    {
        let mut fresh: usize = 0;
        while fresh < self.workspaces.len()
            invariant
                fresh <= self.workspaces.len(),
                forall|f: int, o: int| f < fresh ==> !#[trigger] self@.adoptable(f, o),
            decreases self.workspaces.len() - fresh,
        {
            assert(self@.workspaces[fresh as int] == self.workspaces@[fresh as int]@);
            let known = match self.workspaces[fresh].parent {
                Some(parent) => self.find_display_entity(parent).is_some(),
                None => false,
            };
            if known {
                let mut orphan: usize = 0;
                while orphan < self.workspaces.len()
                    invariant
                        orphan <= self.workspaces.len(),
                        fresh < self.workspaces.len(),
                        self@.workspaces[fresh as int] == self.workspaces@[fresh as int]@,
                        self.workspaces@[fresh as int].parent.is_some(),
                        display_entity_index(
                            self.displays@,
                            self.workspaces@[fresh as int].parent.unwrap(),
                            0,
                        ) < self.displays@.len(),
                        forall|f: int, o: int| f < fresh ==> !#[trigger] self@.adoptable(f, o),
                        forall|o: int| o < orphan ==> !#[trigger] self@.adoptable(fresh as int, o),
                    decreases self.workspaces.len() - orphan,
                {
                    assert(self@.workspaces[orphan as int] == self.workspaces@[orphan as int]@);
                    if orphan != fresh && self.workspaces[orphan].parent.is_none()
                        && self.workspaces[orphan].strip.id() == self.workspaces[fresh].strip.id() {
                        return Some((fresh, orphan));
                    }
                    orphan += 1;
                }
            }
            fresh += 1;
        }
        None
    }

    /// Puts the orphaned workspace at `orphan` in the place of the
    /// workspace at `fresh`, given the windows that the operating system
    /// has on it. The orphan keeps its columns, with every window in its
    /// place.
    pub fn adopt_orphan(&mut self, fresh: usize, orphan: usize, ids: &Vec<WinID>) -> (r: bool)
        requires
            old(self).wf(),
        ensures
            final(self).wf(),
            final(self)@ == old(self)@.orphan_adopted(fresh as int, orphan as int, ids@),
            r == old(self)@.adoptable(fresh as int, orphan as int),
            r ==> final(self)@.workspaces.len() == old(self)@.workspaces.len() - 1
                && final(self)@.workspaces[adopted_place(fresh as int, orphan as int)].cols
                == old(self)@.workspaces[orphan as int].cols,
    {
        if fresh >= self.workspaces.len() || orphan >= self.workspaces.len() || fresh == orphan {
            return false;
        }
        assert(self@.workspaces[fresh as int] == self.workspaces@[fresh as int]@);
        assert(self@.workspaces[orphan as int] == self.workspaces@[orphan as int]@);
        let parent = match self.workspaces[fresh].parent {
            Some(parent) => parent,
            None => {
                return false;
            },
        };
        if self.workspaces[orphan].parent.is_some() || self.workspaces[fresh].strip.id()
            != self.workspaces[orphan].strip.id() {
            return false;
        }
        let display = match self.find_display_entity(parent) {
            Some(at) => self.displays[at].display,
            None => {
                return false;
            },
        };
        let all = self.workspaces[orphan].strip.all_windows();
        let seen = self.windows.snapshot();
        let mut k: usize = 0;
        while k < all.len()
            invariant
                k <= all.len(),
                self.wf(),
                self@ == (WorldView { windows: self.windows@, ..old(self)@ }),
                seen@ == old(self).windows@,
                self.windows@ == ratios_refreshed(old(self).windows@, all@, display, k as int),
            decreases all.len() - k,
        {
            if let Some(window) = self.windows.get(all[k]) {
                self.windows.resize_entity(
                    all[k],
                    IVec2 { x: window.width_ratio.of(display.width()), y: display.height() },
                    display.id(),
                );
            }
            k += 1;
        }
        let ghost sized = self.windows@;
        let corner = display.absolute_coords(IVec2 { x: 0, y: 0 });
        let mut i: usize = 0;
        while i < ids.len()
            invariant
                i <= ids.len(),
                self.wf(),
                self@ == (WorldView { windows: self.windows@, ..old(self)@ }),
                seen@ == old(self).windows@,
                corner == display.spec_absolute(IVec2 { x: 0, y: 0 }),
                self.windows@ == floating_called(sized, seen@, all@, ids@, display, i as int),
            decreases ids.len() - i,
        {
            let listed = World::is_among_in(&seen, &all, ids[i]);
            if !listed {
                if let Some(found) = seen.find(ids[i]) {
                    if let Some(entry) = seen.get_managed(found.entity) {
                        if entry.unmanaged == Some(Unmanaged::Floating) {
                            self.windows.reposition_entity(found.entity, corner, display.id());
                        }
                    }
                }
            }
            i += 1;
        }
        let ghost before = self.workspaces@;
        self.workspaces[orphan].parent = Some(parent);
        self.workspaces[orphan].timeout = None;
        self.workspaces.remove(fresh);
        proof {
            assert(self@.workspaces =~= workspace_views(before).update(
                orphan as int,
                WorkspaceView { parent: Some(parent), timeout: None, ..before[orphan as int]@ },
            ).remove(fresh as int));
            assert forall|j: int| 0 <= j < self.workspaces@.len() implies (
            #[trigger] self.workspaces@[j]).strip.wf() by {
                let from = if j < fresh {
                    j
                } else {
                    j + 1
                };
                assert(before[from].strip.wf());
                assert(self.workspaces@[j].strip == before[from].strip);
            }
            crate::laws::lemma_adoption_keeps_strip(
                old(self)@,
                fresh as int,
                orphan as int,
                ids@,
            );
        }
        true
    }

    fn is_among_in(windows: &crate::world::Windows, all: &Vec<Entity>, id: WinID) -> (r: bool)
        ensures
            r == among(windows@, all@, id, all@.len() as int),
    {
        let mut k: usize = 0;
        while k < all.len()
            invariant
                k <= all.len(),
                !among(windows@, all@, id, k as int),
            decreases all.len() - k,
        {
            if let Some(window) = windows.get(all[k]) {
                if window.id == id {
                    proof {
                        lemma_among(windows@, all@, id, k + 1, all@.len() as int);
                    }
                    return true;
                }
            }
            k += 1;
        }
        false
    }

    fn find_newcomers(&self, ids: &Vec<WinID>, strip: usize) -> (r: Vec<Entity>)
        requires
            strip < self.workspaces@.len(),
        ensures
            r@ == newcomers(
                self.windows@,
                ids@,
                self@.workspaces[strip as int].cols,
                ids@.len() as int,
            ),
    {
        assert(self@.workspaces[strip as int] == self.workspaces@[strip as int]@);
        let mut out: Vec<Entity> = Vec::new();
        let mut k: usize = 0;
        while k < ids.len()
            invariant
                k <= ids.len(),
                strip < self.workspaces@.len(),
                out@ == newcomers(
                    self.windows@,
                    ids@,
                    self.workspaces@[strip as int].strip@,
                    k as int,
                ),
            decreases ids.len() - k,
        {
            if let Some(entry) = self.windows.find_managed(ids[k]) {
                if self.workspaces[strip].strip.index_of(entry.entity).is_err() {
                    out.push(entry.entity);
                }
            }
            k += 1;
        }
        out
    }

    /// Finds the first workspace on a display that is known as `id`.
    pub fn find_home(&self, id: WorkspaceId) -> (r: Option<usize>)
        ensures
            match r {
                Some(i) => i == home_index(self@.workspaces, id, 0) && i < self.workspaces@.len(),
                None => home_index(self@.workspaces, id, 0) == self.workspaces@.len(),
            },
    {
        let mut i: usize = 0;
        while i < self.workspaces.len()
            invariant
                i <= self.workspaces.len(),
                home_index(self@.workspaces, id, 0) == home_index(self@.workspaces, id, i as int),
            decreases self.workspaces.len() - i,
        {
            assert(self@.workspaces[i as int] == self.workspaces@[i as int]@);
            if self.workspaces[i].parent.is_some() && self.workspaces[i].strip.id() == id {
                return Some(i);
            }
            i += 1;
        }
        None
    }

    fn rehome_window(&mut self, entity: Entity, id: WorkspaceId)
        requires
            old(self).wf(),
        ensures
            final(self).wf(),
            final(self)@ == (WorldView {
                workspaces: window_rehomed(old(self)@.workspaces, entity, id),
                ..old(self)@
            }),
    {
        let home = self.find_home(id);
        let n = self.workspaces.len();
        let mut i: usize = 0;
        while i < n
            invariant
                i <= n,
                n == self.workspaces@.len(),
                n == old(self).workspaces@.len(),
                self.wf(),
                self@ == (WorldView { workspaces: self@.workspaces, ..old(self)@ }),
                match home {
                    Some(at) => at == home_index(old(self)@.workspaces, id, 0),
                    None => home_index(old(self)@.workspaces, id, 0) == n,
                },
                forall|j: int|
                    0 <= j < i ==> (#[trigger] self.workspaces@[j])@ == window_rehomed(
                        old(self)@.workspaces,
                        entity,
                        id,
                    )[j],
                forall|j: int| i <= j < n ==> self.workspaces@[j] == old(self).workspaces@[j],
            decreases n - i,
        {
            assert(old(self)@.workspaces[i as int] == old(self).workspaces@[i as int]@);
            assert(self.workspaces@[i as int].strip.wf());
            let ghost before = self.workspaces@;
            let mut taken = LayoutStrip::new(0);
            std::mem::swap(&mut self.workspaces[i].strip, &mut taken);
            proof {
                taken.lemma_wf();
                crate::layout::lemma_removed(taken@, entity);
            }
            taken.remove(entity);
            if home == Some(i) {
                taken.append(entity);
            }
            std::mem::swap(&mut self.workspaces[i].strip, &mut taken);
            proof {
                assert forall|j: int| 0 <= j < n implies (#[trigger] self.workspaces@[j]).strip.wf(
                ) by {
                    if j != i {
                        assert(self.workspaces@[j] == before[j]);
                        assert(before[j].strip.wf());
                    }
                }
            }
            i += 1;
        }
        assert(self@.workspaces =~= window_rehomed(old(self)@.workspaces, entity, id));
    }

    /// Takes in the windows that the operating system has on the
    /// workspace `strip`, which became the active one.
    pub fn active_workspace_trigger(&mut self, strip: Entity, ids: Option<&Vec<WinID>>)
        requires
            old(self).wf(),
        ensures
            final(self).wf(),
            final(self)@ == old(self)@.workspace_activated(
                strip,
                match ids {
                    Some(v) => Some(v@),
                    None => None,
                },
            ),
    {
        let at = match self.find_workspace_entity(strip) {
            Some(at) => at,
            None => {
                return ;
            },
        };
        assert(self@.workspaces[at as int] == self.workspaces@[at as int]@);
        if self.workspaces[at].parent.is_none() {
            return ;
        }
        let ids = match ids {
            Some(ids) => ids,
            None => {
                return ;
            },
        };
        let id = self.workspaces[at].strip.id();
        let moved = self.find_newcomers(ids, at);
        let mut k: usize = 0;
        while k < moved.len()
            invariant
                k <= moved.len(),
                self.wf(),
                old(self)@.windows_rehomed(moved@, id, 0) == self@.windows_rehomed(
                    moved@,
                    id,
                    k as int,
                ),
            decreases moved.len() - k,
        {
            self.rehome_window(moved[k], id);
            self.windows.reshuffle_around(moved[k]);
            k += 1;
        }
    }
}

proof fn lemma_among(windows: Seq<WindowEntry>, all: Seq<Entity>, id: WinID, k: int, n: int)
    requires
        0 <= k <= n,
        among(windows, all, id, k),
    ensures
        among(windows, all, id, n),
    decreases n - k,
{
    if k < n {
        lemma_among(windows, all, id, k + 1, n);
    }
}

/// Where an orphan that stood at `orphan` stands once it took the place
/// of the workspace at `fresh`.
pub open spec fn adopted_place(fresh: int, orphan: int) -> int {
    if fresh < orphan {
        orphan - 1
    } else {
        orphan
    }
}

/// The display known as `id` as the operating system has it now, if it
/// has it.
pub open spec fn present_display(present: Seq<(Display, Seq<WorkspaceId>)>, id: DisplayId)
    -> Option<Display> {
    if present_index(present, id, 0) < present.len() {
        Some(present[present_index(present, id, 0)].0)
    } else {
        None
    }
}

impl WorldView {
    /// The model after the report that a display appeared, went away or
    /// changed, given the displays that the operating system has now, and
    /// what is announced: after each of these reports, that the displays
    /// changed. Other reports change nothing.
    pub open spec fn displays_rearranged(
        self,
        event: Event,
        present: Seq<(Display, Seq<WorkspaceId>)>,
    ) -> (WorldView, Option<Effect>) {
        let changed = Some(Effect::Trigger(WMEventTrigger(Event::DisplayChanged)));
        match event {
            Event::DisplayAdded { display_id } => (self.display_added(display_id, present), changed),
            Event::DisplayRemoved { display_id } => (self.display_removed(display_id), changed),
            Event::DisplayMoved { display_id } => (
                self.display_moved(display_id, present_display(present, display_id)),
                changed,
            ),
            _ => (self, None),
        }
    }
}

fn find_present(present: &Vec<(Display, Vec<WorkspaceId>)>, id: DisplayId) -> (r: Option<Display>)
    ensures
        r == present_display(present_views(present@), id),
{
    let ghost views = present_views(present@);
    let mut k: usize = 0;
    while k < present.len()
        invariant
            k <= present.len(),
            views == present_views(present@),
            present_index(views, id, 0) == present_index(views, id, k as int),
        decreases present.len() - k,
    {
        assert(views[k as int] == (present@[k as int].0, present@[k as int].1@));
        if present[k].0.id() == id {
            return Some(present[k].0);
        }
        k += 1;
    }
    None
}

impl World {
    /// Handles the report that a display appeared, went away or changed,
    /// given the displays that the operating system has now.
    pub fn displays_rearranged(
        &mut self,
        event: &Event,
        present: &Vec<(Display, Vec<WorkspaceId>)>,
    ) -> (r: Option<Effect>)
        requires
            old(self).wf(),
        ensures
            final(self).wf(),
            (final(self)@, r) == old(self)@.displays_rearranged(*event, present_views(present@)),
    {
        match *event {
            Event::DisplayAdded { display_id } => Some(self.display_added(display_id, present)),
            Event::DisplayRemoved { display_id } => Some(self.remove_display(display_id)),
            Event::DisplayMoved { display_id } => {
                let now = find_present(present, display_id);
                Some(self.move_display(display_id, now))
            },
            _ => None,
        }
    }
}

/// How often displays and workspaces are looked at for changes that
/// went unnoticed, in milliseconds.
pub const DISPLAY_CHANGE_CHECK_FREQ_MS: u64 = 1000;

/// Whether it is time to look at the displays again, `since`
/// milliseconds after the last look and `delta` after the last turn; and
/// the time since the last look as it is to be kept.
pub open spec fn poll_turn(since: u64, delta: u64) -> (bool, u64) {
    let waited = if since + delta > u64::MAX {
        u64::MAX
    } else {
        (since + delta) as u64
    };
    if waited < DISPLAY_CHANGE_CHECK_FREQ_MS {
        (false, waited)
    } else {
        (true, 0)
    }
}

/// Decides whether it is time to look at the displays again.
pub fn poll_due(since: u64, delta: u64) -> (r: (bool, u64))
    ensures
        r == poll_turn(since, delta),
{
    let waited = if since > u64::MAX - delta {
        u64::MAX
    } else {
        since + delta
    };
    if waited < DISPLAY_CHANGE_CHECK_FREQ_MS {
        (false, waited)
    } else {
        (true, 0)
    }
}

/// The windows that the operating system was found to have on the
/// workspace known as `id`; none where nothing was found for it.
pub open spec fn windows_found(found: Map<WorkspaceId, Vec<WinID>>, id: WorkspaceId) -> Seq<WinID> {
    if found.dom().contains(id) {
        found[id]@
    } else {
        Seq::empty()
    }
}

impl WorldView {
    /// Whether the workspace at `fresh` and the orphan at `orphan` are
    /// the first pair of which the one can take the place of the other:
    /// no workspace before `fresh` has an orphan to take its place, and
    /// no orphan before `orphan` can take the place of `fresh`.
    pub open spec fn first_adoptable(self, fresh: int, orphan: int) -> bool {
        &&& self.adoptable(fresh, orphan)
        &&& forall|f: int, o: int|
            (f < fresh || (f == fresh && o < orphan)) ==> !#[trigger] self.adoptable(f, o)
    }

    /// The first pair of a workspace on a display and an orphan that can
    /// take its place, if there is one.
    pub open spec fn next_adoption(self) -> Option<(int, int)> {
        if exists|f: int, o: int| #[trigger] self.first_adoptable(f, o) {
            Some(choose|f: int, o: int| #[trigger] self.first_adoptable(f, o))
        } else {
            None
        }
    }

    /// The model after the orphans found their displays again, one
    /// adoption after the other, at most `n` of them: each time the first
    /// pair of a workspace on a display and an orphan of its name is
    /// taken, and the orphan takes the place of that workspace, given the
    /// windows that were found on it.
    pub open spec fn orphans_adopted(self, found: Map<WorkspaceId, Vec<WinID>>, n: nat)
        -> WorldView
        decreases n,
    {
        match self.next_adoption() {
            Some((fresh, orphan)) if n > 0 => self.orphan_adopted(
                fresh,
                orphan,
                windows_found(found, self.workspaces[orphan].id),
            ).orphans_adopted(found, (n - 1) as nat),
            _ => self,
        }
    }
}

/// There is one first pair at most.
pub proof fn lemma_next_adoption(w: WorldView, fresh: int, orphan: int)
    requires
        w.first_adoptable(fresh, orphan),
    ensures
        w.next_adoption() == Some((fresh, orphan)),
{
    let (f, o) = choose|f: int, o: int| #[trigger] w.first_adoptable(f, o);
    assert(w.first_adoptable(f, o));
    assert(w.adoptable(f, o));
    assert(w.adoptable(fresh, orphan));
    if f < fresh || (f == fresh && o < orphan) {
        assert(!w.adoptable(f, o));
    }
    if fresh < f || (fresh == f && orphan < o) {
        assert(!w.adoptable(fresh, orphan));
    }
}

impl World {
    /// Lets every orphaned workspace whose display has come back take the
    /// place of the workspace of its name that was put on that display,
    /// given the windows that the operating system has on the workspaces,
    /// by their names. An orphan gets its display, waits no longer and
    /// keeps its columns; the workspace whose place it takes is gone; its
    /// windows are asked to take their share of the display. Orphans
    /// without such a workspace stay as they are. Returns how many
    /// orphans were taken back.
    pub fn find_orphaned_workspaces(&mut self, found: &HashMap<WorkspaceId, Vec<WinID>>) -> (r:
        usize)
        requires
            old(self).wf(),
        ensures
            final(self).wf(),
            final(self)@ == old(self)@.orphans_adopted(
                found@,
                old(self)@.workspaces.len(),
            ),
    {
        broadcast use vstd::std_specs::hash::group_hash_axioms;

        let nothing: Vec<WinID> = Vec::new();
        let count: usize = self.workspaces.len();
        let mut left: usize = count;
        let mut taken: usize = 0;
        while left > 0
            invariant
                self.wf(),
                nothing@.len() == 0,
                taken + left == count,
                old(self)@.orphans_adopted(found@, old(self)@.workspaces.len())
                    == self@.orphans_adopted(found@, left as nat),
            decreases left,
        {
            match self.next_orphan() {
                Some((fresh, orphan)) => {
                    assert(self@.workspaces[orphan as int] == self.workspaces@[orphan as int]@);
                    let id = self.workspaces[orphan].strip.id();
                    let ids = match found.get(&id) {
                        Some(ids) => ids,
                        None => &nothing,
                    };
                    assert(ids@ =~= windows_found(found@, id));
                    self.adopt_orphan(fresh, orphan, ids);
                    left -= 1;
                    taken += 1;
                },
                None => {
                    return taken;
                },
            }
        }
        taken
    }
}

} // verus!
