//! How displays, workspaces and windows come into the model.

use vstd::prelude::*;
use crate::config::{rule_views, WindowParams, WindowParamsView};
use crate::ecs::{
    ActiveDisplayMarker, ActiveWorkspaceMarker, DisplayId, Event, SendMessageTrigger,
    SkipReshuffle, StrayFocusEvent, Timeout, Unmanaged, WinID,
};
use crate::layout::{column_of, flattened, holds, removed, Entity, LayoutStrip, WorkspaceId};
use crate::manager::{Display, Window};
use crate::geometry::{IVec2, Size};
use crate::ratio::{saturated, Ratio};
use crate::triggers::{focus_of, Effect};
use crate::world::{
    has_window, lemma_window_index_by_id, managed_index_by_id, marked_for_reshuffle,
    window_index_by_id,
    workspace_views, DisplayEntry, WindowEntry, WorkspaceEntry, WorkspaceView, World, WorldView,
};

verus! {

/// What the rules that apply to a window say of it, all taken together.
#[derive(Clone, Copy, Debug, PartialEq, Eq, Structural)]
pub struct WindowProperties {
    pub floating: bool,
    pub index: Option<usize>,
    pub vertical_padding: Option<i32>,
    pub horizontal_padding: Option<i32>,
    pub dont_focus: bool,
    pub width: Option<Ratio>,
}

/// Padding is held to this many pixels.
pub const MAX_WINDOW_PADDING: i32 = 50;

/// A padding held to the range from none to `MAX_WINDOW_PADDING`.
pub open spec fn padding_held(p: i32) -> i32 {
    if p < 0 {
        0
    } else if p > MAX_WINDOW_PADDING {
        MAX_WINDOW_PADDING
    } else {
        p
    }
}

/// What the rules from the `from`-th to the `to`-th say of a window, an
/// earlier rule going before a later one.
pub open spec fn properties_from(rules: Seq<WindowParamsView>, from: int, to: int)
    -> WindowProperties
    decreases to - from,
{
    if from >= to || from < 0 {
        WindowProperties {
            floating: false,
            index: None,
            vertical_padding: None,
            horizontal_padding: None,
            dont_focus: false,
            width: None,
        }
    } else {
        let rest = properties_from(rules, from + 1, to);
        let rule = rules[from];
        WindowProperties {
            floating: match rule.floating {
                Some(f) => f,
                None => rest.floating,
            },
            index: match rule.index {
                Some(i) => Some(i),
                None => rest.index,
            },
            vertical_padding: match rule.vertical_padding {
                Some(p) => Some(p),
                None => rest.vertical_padding,
            },
            horizontal_padding: match rule.horizontal_padding {
                Some(p) => Some(p),
                None => rest.horizontal_padding,
            },
            dont_focus: match rule.dont_focus {
                Some(d) => d,
                None => rest.dont_focus,
            },
            width: match rule.width {
                Some(w) => Some(w),
                None => rest.width,
            },
        }
    }
}

/// The properties with the padding as it is applied: held to its range,
/// and none for a window that floats.
pub open spec fn with_padding_applied(p: WindowProperties) -> WindowProperties {
    WindowProperties {
        vertical_padding: match p.vertical_padding {
            Some(v) if !p.floating => Some(padding_held(v)),
            _ => None,
        },
        horizontal_padding: match p.horizontal_padding {
            Some(h) if !p.floating => Some(padding_held(h)),
            _ => None,
        },
        ..p
    }
}

/// What the rules that apply to a window say of it.
pub open spec fn resolved(rules: Seq<WindowParamsView>) -> WindowProperties {
    with_padding_applied(properties_from(rules, 0, rules.len() as int))
}

fn hold_padding(p: i32) -> (r: i32)
    ensures
        r == padding_held(p),
{
    if p < 0 {
        0
    } else if p > MAX_WINDOW_PADDING {
        MAX_WINDOW_PADDING
    } else {
        p
    }
}

/// Takes the rules that apply to a window together: the first rule that
/// sets a property decides it.
pub fn resolve_properties(rules: &Vec<WindowParams>) -> (r: WindowProperties)
    ensures
        r == resolved(rule_views(rules@)),
{
    let ghost views = rule_views(rules@);
    let mut out = WindowProperties {
        floating: false,
        index: None,
        vertical_padding: None,
        horizontal_padding: None,
        dont_focus: false,
        width: None,
    };
    let mut k: usize = rules.len();
    while k > 0
        invariant
            k <= rules.len(),
            views == rule_views(rules@),
            out == properties_from(views, k as int, views.len() as int),
        decreases k,
    {
        k -= 1;
        let rule = &rules[k];
        assert(views[k as int] == rule@);
        if let Some(f) = rule.floating {
            out.floating = f;
        }
        if let Some(i) = rule.index {
            out.index = Some(i);
        }
        if let Some(p) = rule.vertical_padding {
            out.vertical_padding = Some(p);
        }
        if let Some(p) = rule.horizontal_padding {
            out.horizontal_padding = Some(p);
        }
        if let Some(d) = rule.dont_focus {
            out.dont_focus = d;
        }
        if let Some(w) = rule.width {
            out.width = Some(w);
        }
    }
    WindowProperties {
        vertical_padding: match out.vertical_padding {
            Some(v) => if !out.floating {
                Some(hold_padding(v))
            } else {
                None
            },
            None => None,
        },
        horizontal_padding: match out.horizontal_padding {
            Some(h) => if !out.floating {
                Some(hold_padding(h))
            } else {
                None
            },
            None => None,
        },
        ..out
    }
}

/// The width a rule gives a window at first, on a display that is
/// `display_width` wide with the side padding `pad_left` and `pad_right`:
/// the rule's fraction of the padded width, rounded to the nearest pixel.
pub open spec fn configured_width(width: Ratio, display_width: int, pad_left: int, pad_right: int)
    -> int {
    crate::ratio::saturated(
        width.spec_of_rounded(crate::ratio::saturated(display_width - pad_left - pad_right)),
    )
}

pub fn initial_width(width: Ratio, display_width: i32, pad_left: i32, pad_right: i32) -> (r: i32)
    ensures
        r == configured_width(width, display_width as int, pad_left as int, pad_right as int),
{
    let padded = crate::ratio::saturate(
        display_width as i64 - pad_left as i64 - pad_right as i64,
    );
    width.of_rounded(padded)
}

/// The focus events of `stray` that do not wait for the window known as
/// `id`, in order.
pub open spec fn stray_kept(stray: Seq<(Timeout, StrayFocusEvent)>, id: WinID, k: int) -> Seq<
    (Timeout, StrayFocusEvent),
>
    decreases k,
{
    if k <= 0 {
        Seq::empty()
    } else if stray[k - 1].1.0 == id {
        stray_kept(stray, id, k - 1)
    } else {
        stray_kept(stray, id, k - 1).push(stray[k - 1])
    }
}

/// For every one of the first `k` focus events that waits for the window
/// known as `id`, the request to queue the event again.
pub open spec fn stray_sent(stray: Seq<(Timeout, StrayFocusEvent)>, id: WinID, k: int) -> Seq<
    Effect,
>
    decreases k,
{
    if k <= 0 {
        Seq::empty()
    } else if stray[k - 1].1.0 == id {
        stray_sent(stray, id, k - 1).push(
            Effect::Send(SendMessageTrigger(Event::WindowFocused { window_id: id })),
        )
    } else {
        stray_sent(stray, id, k - 1)
    }
}

/// A window as it enters the store: without any marker.
pub open spec fn fresh_entry(entity: Entity, parent: Entity, window: Window) -> WindowEntry {
    WindowEntry {
        entity,
        parent,
        window,
        focused: None,
        unmanaged: None,
        reposition: None,
        resize: None,
        reshuffle: None,
        full_width: None,
        swipe: None,
        stack_adjusted: None,
    }
}

/// Where a new window enters a strip: where its rule says, and else right
/// of the focused window unless that is in the last column. At the end
/// otherwise.
pub open spec fn insertion_index(
    cols: Seq<Seq<Entity>>,
    focus: Option<Entity>,
    wanted: Option<usize>,
) -> Option<int> {
    match wanted {
        Some(index) => Some(index as int),
        None => match focus {
            Some(e) if holds(cols, e) && column_of(cols, e) + 1 < cols.len() => Some(
                column_of(cols, e) + 1,
            ),
            _ => None,
        },
    }
}

/// The columns after the window `e` entered at `at`, or at the end where
/// `at` is nothing or past the end; columns that hold `e` already stay
/// as they are.
pub open spec fn entered(cols: Seq<Seq<Entity>>, at: Option<int>, e: Entity) -> Seq<Seq<Entity>> {
    if holds(cols, e) {
        cols
    } else {
        match at {
            Some(index) if index < cols.len() => cols.insert(index, seq![e]),
            _ => cols.push(seq![e]),
        }
    }
}

impl WorldView {
    /// The model with another display, which is the active one if
    /// `active`.
    pub open spec fn with_display(self, display: Display, active: bool) -> WorldView {
        WorldView {
            displays: self.displays.push(
                DisplayEntry {
                    entity: self.next_entity,
                    display,
                    dock: None,
                    active: if active {
                        Some(ActiveDisplayMarker)
                    } else {
                        None
                    },
                },
            ),
            next_entity: (self.next_entity + 1) as u64,
            ..self
        }
    }

    /// The model with another workspace, empty, on the display `parent`,
    /// which is the active one if `active`.
    pub open spec fn with_workspace(self, id: WorkspaceId, parent: Option<Entity>, active: bool)
        -> WorldView {
        WorldView {
            workspaces: self.workspaces.push(
                WorkspaceView {
                    entity: self.next_entity,
                    id,
                    cols: Seq::empty(),
                    parent,
                    active: if active {
                        Some(ActiveWorkspaceMarker)
                    } else {
                        None
                    },
                    timeout: None,
                },
            ),
            next_entity: (self.next_entity + 1) as u64,
            ..self
        }
    }

    /// Whether the window `window` can enter the store: there is an
    /// active display and workspace, no window is known by its
    /// identifier yet, and there is an entity left for it.
    pub open spec fn admits(self, window: Window) -> bool {
        self.active().is_some() && window_index_by_id(self.windows, window.id)
            >= self.windows.len() && self.next_entity < u64::MAX
    }

    /// The model after the window `window` of the application `parent`
    /// entered it, with the properties that its rules give it.
    ///
    /// The focus events that waited for the window are taken up. A window
    /// that is to float is marked so and stays out of the strip. Any other
    /// enters the active strip, unless a strip holds its entity already.
    /// Unless the model is initializing, a window
    /// that is not to get the focus leaves the layout alone, where there
    /// is a focused window, and any other window is asked to be brought
    /// into view.
    pub open spec fn window_spawned(self, window: Window, parent: Entity, p: WindowProperties)
        -> WorldView {
        if !self.admits(window) {
            self
        } else {
            let e = self.next_entity;
            let active = self.active().unwrap();
            let cols = self.workspaces[active.strip as int].cols;
            let known = WorldView {
                windows: self.windows.push(fresh_entry(e, parent, window)),
                stray_focus: stray_kept(
                    self.stray_focus,
                    window.id,
                    self.stray_focus.len() as int,
                ),
                next_entity: (e + 1) as u64,
                ..self
            };
            if p.floating {
                known.with_unmanaged(e, Unmanaged::Floating)
            } else {
                let focus = focus_of(self.windows);
                let placed = if self.held(e) {
                    known
                } else {
                    known.with_cols(
                        active.strip as int,
                        entered(cols, insertion_index(cols, focus, p.index), e),
                    )
                };
                if self.initializing.is_some() {
                    placed
                } else if p.dont_focus {
                    if focus.is_some() {
                        WorldView { skip_reshuffle: SkipReshuffle(true), ..placed }
                    } else {
                        placed
                    }
                } else {
                    WorldView { windows: marked_for_reshuffle(placed.windows, e), ..placed }
                }
            }
        }
    }

    /// What the outside is asked when the window enters: to queue again
    /// the focus events that waited for it, and to keep the focus where it
    /// is where the window is not to get it.
    pub open spec fn window_spawned_effects(
        self,
        window: Window,
        parent: Entity,
        p: WindowProperties,
    ) -> Seq<Effect> {
        if !self.admits(window) {
            Seq::empty()
        } else {
            let sent = stray_sent(self.stray_focus, window.id, self.stray_focus.len() as int);
            let focus = focus_of(self.windows);
            if !p.floating && self.initializing.is_none() && p.dont_focus && focus.is_some() {
                sent.push(Effect::FocusWithRaise(focus.unwrap()))
            } else {
                sent
            }
        }
    }
}

impl World {
    /// Adds a display to the store.
    pub fn add_display(&mut self, display: Display, active: bool) -> (r: Option<Entity>)
        requires
            old(self).wf(),
        ensures
            final(self).wf(),
            match r {
                Some(e) => e == old(self).next_entity && e < u64::MAX && final(self)@
                    == old(self)@.with_display(display, active),
                None => old(self).next_entity == u64::MAX && final(self)@ == old(self)@,
            },
    {
        if self.next_entity == u64::MAX {
            return None;
        }
        let entity = self.next_entity;
        self.next_entity = entity + 1;
        self.displays.push(
            DisplayEntry {
                entity,
                display,
                dock: None,
                active: if active {
                    Some(ActiveDisplayMarker)
                } else {
                    None
                },
            },
        );
        Some(entity)
    }

    /// Adds an empty workspace to the store.
    pub fn add_workspace(&mut self, id: WorkspaceId, parent: Option<Entity>, active: bool) -> (r:
        Option<Entity>)
        requires
            old(self).wf(),
        ensures
            final(self).wf(),
            match r {
                Some(e) => e == old(self).next_entity && e < u64::MAX && final(self)@
                    == old(self)@.with_workspace(id, parent, active),
                None => old(self).next_entity == u64::MAX && final(self)@ == old(self)@,
            },
    {
        if self.next_entity == u64::MAX {
            return None;
        }
        let entity = self.next_entity;
        self.next_entity = entity + 1;
        self.workspaces.push(
            WorkspaceEntry {
                entity,
                strip: LayoutStrip::new(id),
                parent,
                active: if active {
                    Some(ActiveWorkspaceMarker)
                } else {
                    None
                },
                timeout: None,
            },
        );
        proof {
            assert(self@.workspaces =~= old(self)@.with_workspace(id, parent, active).workspaces);
            assert forall|i: int| 0 <= i < self.workspaces@.len() implies (
            #[trigger] self.workspaces@[i]).strip.wf() by {
                if i < old(self).workspaces@.len() {
                    assert(self.workspaces@[i] == old(self).workspaces@[i]);
                }
            }
        }
        Some(entity)
    }

    /// Takes up the focus events that waited for the window known as
    /// `window_id`: they are to be queued again and wait no longer.
    pub fn stray_focus_observer(&mut self, window_id: WinID) -> (r: Vec<Effect>)
        requires
            old(self).wf(),
        ensures
            final(self).wf(),
            final(self)@ == (WorldView {
                stray_focus: stray_kept(
                    old(self)@.stray_focus,
                    window_id,
                    old(self)@.stray_focus.len() as int,
                ),
                ..old(self)@
            }),
            r@ == stray_sent(
                old(self)@.stray_focus,
                window_id,
                old(self)@.stray_focus.len() as int,
            ),
    {
        let mut kept: Vec<(Timeout, StrayFocusEvent)> = Vec::new();
        let mut sent: Vec<Effect> = Vec::new();
        let mut k: usize = 0;
        while k < self.stray_focus.len()
            invariant
                k <= self.stray_focus.len(),
                self.wf(),
                self@ == old(self)@,
                kept@ == stray_kept(self.stray_focus@, window_id, k as int),
                sent@ == stray_sent(self.stray_focus@, window_id, k as int),
            decreases self.stray_focus.len() - k,
        {
            let waiting = self.stray_focus[k];
            if waiting.1.0 == window_id {
                sent.push(Effect::Send(SendMessageTrigger(Event::WindowFocused { window_id })));
            } else {
                kept.push(waiting);
            }
            k += 1;
        }
        self.stray_focus = kept;
        sent
    }

    /// Puts the window `entity` into the strip at `strip`: at `at`, or at
    /// the end where `at` is nothing or past the end.
    pub fn insert_into_strip(&mut self, strip: usize, at: Option<usize>, entity: Entity)
        requires
            old(self).wf(),
            strip < old(self).workspaces@.len(),
        ensures
            final(self).wf(),
            final(self)@ == old(self)@.with_cols(
                strip as int,
                entered(
                    old(self)@.workspaces[strip as int].cols,
                    match at {
                        Some(index) => Some(index as int),
                        None => None,
                    },
                    entity,
                ),
            ),
    {
        let mut taken = LayoutStrip::new(0);
        assert(self.workspaces@[strip as int].strip.wf());
        std::mem::swap(&mut self.workspaces[strip].strip, &mut taken);
        let ghost cols = taken@;
        match at {
            Some(index) => {
                taken.insert_at(index, entity);
                assert(cols.insert(cols.len() as int, seq![entity]) =~= cols.push(seq![entity]));
                assert(taken@ =~= entered(cols, Some(index as int), entity));
            },
            None => {
                taken.append(entity);
            },
        }
        std::mem::swap(&mut self.workspaces[strip].strip, &mut taken);
        proof {
            self.lemma_strip_changed(old(self), strip as int);
        }
    }

    /// Lets a window of the application `parent` into the store, with the
    /// properties that its rules give it.
    pub fn spawn_window_trigger(&mut self, window: Window, parent: Entity, properties: &WindowProperties)
        -> (r: (Option<Entity>, Vec<Effect>))
        requires
            old(self).wf(),
        ensures
            final(self).wf(),
            final(self)@ == old(self)@.window_spawned(window, parent, *properties),
            r.1@ == old(self)@.window_spawned_effects(window, parent, *properties),
            r.0 == (if old(self)@.admits(window) {
                Some(old(self).next_entity)
            } else {
                None
            }),
    {
        let none: Vec<Effect> = Vec::new();
        let active = match self.active() {
            Some(active) => active,
            None => {
                return (None, none);
            },
        };
        proof {
            lemma_window_index_by_id(self.windows@, window.id);
        }
        if self.windows.find(window.id).is_some() || self.next_entity == u64::MAX {
            return (None, none);
        }
        let focus = match self.windows.focused() {
            Some(entry) => Some(entry.entity),
            None => None,
        };
        let entity = self.next_entity;
        self.next_entity = entity + 1;
        self.windows.all.push(
            WindowEntry {
                entity,
                parent,
                window,
                focused: None,
                unmanaged: None,
                reposition: None,
                resize: None,
                reshuffle: None,
                full_width: None,
                swipe: None,
                stack_adjusted: None,
            },
        );
        let mut told = self.stray_focus_observer(window.id);
        if properties.floating {
            let _ = self.insert_unmanaged(entity, Unmanaged::Floating);
            return (Some(entity), told);
        }
        assert(self@.workspaces[active.strip as int] == self.workspaces@[active.strip as int]@);
        let columns = self.workspaces[active.strip].strip.len();
        let at = match properties.index {
            Some(index) => Some(index),
            None => match focus {
                Some(e) => match self.workspaces[active.strip].strip.index_of(e) {
                    Ok(index) => if index + 1 < columns {
                        Some(index + 1)
                    } else {
                        None
                    },
                    Err(_) => None,
                },
                None => None,
            },
        };
        if self.strip_of(entity).is_none() {
            self.insert_into_strip(active.strip, at, entity);
        }
        if self.initializing.is_some() {
        } else if properties.dont_focus {
            if let Some(e) = focus {
                told.push(Effect::FocusWithRaise(e));
                self.skip_reshuffle = SkipReshuffle(true);
            }
        } else {
            self.windows.reshuffle_around(entity);
        }
        (Some(entity), told)
    }
}

/// Of the first `k` identifiers, the entities of the managed windows
/// known by them that are minimized, if `minimized`, or that are not, if
/// not; in order.
pub open spec fn found_windows(windows: Seq<WindowEntry>, ids: Seq<WinID>, minimized: bool, k: int)
    -> Seq<Entity>
    decreases k,
{
    if k <= 0 {
        Seq::empty()
    } else {
        let at = managed_index_by_id(windows, ids[k - 1]);
        let before = found_windows(windows, ids, minimized, k - 1);
        if at < windows.len() && windows[at].window.minimized == minimized {
            before.push(windows[at].entity)
        } else {
            before
        }
    }
}

/// The columns after those of the windows `all` from the `k`-th on that
/// are not among `keep` left the strip.
pub open spec fn pruned(cols: Seq<Seq<Entity>>, keep: Seq<Entity>, all: Seq<Entity>, k: int) -> Seq<
    Seq<Entity>,
>
    decreases all.len() - k,
{
    if k < 0 || k >= all.len() {
        cols
    } else if keep.contains(all[k]) {
        pruned(cols, keep, all, k + 1)
    } else {
        pruned(removed(cols, all[k]), keep, all, k + 1)
    }
}

/// The columns after those of the windows `found` from the `k`-th on that
/// the strip does not hold were put at its end.
pub open spec fn joined(cols: Seq<Seq<Entity>>, found: Seq<Entity>, k: int) -> Seq<Seq<Entity>>
    decreases found.len() - k,
{
    if k < 0 || k >= found.len() {
        cols
    } else if holds(cols, found[k]) {
        joined(cols, found, k + 1)
    } else {
        joined(cols.push(seq![found[k]]), found, k + 1)
    }
}

/// The columns of a strip brought in line with the windows that the
/// operating system has on the workspace: windows that are not among them
/// leave, windows among them that the strip lacks are put at its end,
/// and the order of the others stays.
pub open spec fn refreshed(cols: Seq<Seq<Entity>>, found: Seq<Entity>) -> Seq<Seq<Entity>> {
    joined(pruned(cols, found, flattened(cols), 0), found, 0)
}

/// The columns after the first `k` windows of `list` left them.
pub open spec fn released(cols: Seq<Seq<Entity>>, list: Seq<Entity>, k: int) -> Seq<Seq<Entity>>
    decreases k,
{
    if k <= 0 {
        cols
    } else {
        removed(released(cols, list, k - 1), list[k - 1])
    }
}

/// The workspaces after every strip but the one at `strip` let go of the
/// windows of `list`.
pub open spec fn released_elsewhere(workspaces: Seq<WorkspaceView>, strip: int, list: Seq<Entity>)
    -> Seq<WorkspaceView> {
    Seq::new(
        workspaces.len(),
        |i: int|
            if i == strip {
                workspaces[i]
            } else {
                WorkspaceView {
                    cols: released(workspaces[i].cols, list, list.len() as int),
                    ..workspaces[i]
                }
            },
    )
}

/// The window to raise once a strip is brought in line: the top window of
/// the first column of the active strip, where it is known.
pub open spec fn to_raise(windows: Seq<WindowEntry>, cols: Seq<Seq<Entity>>, active: bool)
    -> Option<Entity> {
    if active && cols.len() > 0 && cols[0].len() > 0 && has_window(windows, cols[0][0]) {
        Some(cols[0][0])
    } else {
        None
    }
}

impl WorldView {
    /// The model after the windows `found` from the `k`-th on were marked
    /// as minimized, with what was announced on the way added to `told`.
    pub open spec fn minimized_from(self, found: Seq<Entity>, told: Seq<Effect>, k: int) -> (
        WorldView,
        Seq<Effect>,
    )
        decreases found.len() - k,
    {
        if k < 0 || k >= found.len() {
            (self, told)
        } else {
            let next = self.with_unmanaged(found[k], Unmanaged::Minimized);
            let more = match self.with_unmanaged_event(found[k], Unmanaged::Minimized) {
                Some(effect) => told.push(effect),
                None => told,
            };
            next.minimized_from(found, more, k + 1)
        }
    }

    /// The model after the strip at `strip` was brought in line with the
    /// windows `ids` that the operating system has on its workspace, and
    /// what the outside is asked on the way.
    ///
    /// Only managed windows count, and of them only those that are not
    /// minimized stay in the strip; every other strip lets go of them;
    /// the top window of the active strip is to be raised; and the
    /// minimized ones are marked as such.
    pub open spec fn workspace_refreshed(self, strip: int, ids: Seq<WinID>) -> (
        WorldView,
        Seq<Effect>,
    ) {
        let shown = found_windows(self.windows, ids, false, ids.len() as int);
        let hidden = found_windows(self.windows, ids, true, ids.len() as int);
        let cols = refreshed(self.workspaces[strip].cols, shown);
        let raise = match to_raise(self.windows, cols, self.workspaces[strip].active.is_some()) {
            Some(e) => seq![Effect::FocusWithRaise(e)],
            None => Seq::empty(),
        };
        (WorldView {
            workspaces: released_elsewhere(self.with_cols(strip, cols).workspaces, strip, shown),
            ..self
        }).minimized_from(hidden, raise, 0)
    }
}

fn contains_entity(v: &Vec<Entity>, e: Entity) -> (r: bool)
    ensures
        r == v@.contains(e),
{
    let mut i: usize = 0;
    while i < v.len()
        invariant
            i <= v.len(),
            forall|j: int| 0 <= j < i ==> v@[j] != e,
        decreases v.len() - i,
    {
        if v[i] == e {
            return true;
        }
        i += 1;
    }
    false
}

/// Brings a strip in line with the windows `found`.
pub fn refresh_strip(strip: &mut LayoutStrip, found: &Vec<Entity>)
    requires
        old(strip).wf(),
    ensures
        final(strip).wf(),
        final(strip).spec_id() == old(strip).spec_id(),
        final(strip)@ == refreshed(old(strip)@, found@),
{
    let all = strip.all_windows();
    let mut k: usize = 0;
    while k < all.len()
        invariant
            k <= all.len(),
            strip.wf(),
            strip.spec_id() == old(strip).spec_id(),
            pruned(old(strip)@, found@, all@, 0) == pruned(strip@, found@, all@, k as int),
        decreases all.len() - k,
    {
        if !contains_entity(found, all[k]) {
            strip.remove(all[k]);
        }
        k += 1;
    }
    let ghost kept = strip@;
    let mut i: usize = 0;
    while i < found.len()
        invariant
            i <= found.len(),
            strip.wf(),
            strip.spec_id() == old(strip).spec_id(),
            joined(kept, found@, 0) == joined(strip@, found@, i as int),
        decreases found.len() - i,
    {
        if strip.index_of(found[i]).is_err() {
            strip.append(found[i]);
        }
        i += 1;
    }
}

impl World {
    fn find_in_workspace(&self, ids: &Vec<WinID>, minimized: bool) -> (r: Vec<Entity>)
        ensures
            r@ == found_windows(self.windows@, ids@, minimized, ids@.len() as int),
    {
        let mut out: Vec<Entity> = Vec::new();
        let mut k: usize = 0;
        while k < ids.len()
            invariant
                k <= ids.len(),
                out@ == found_windows(self.windows@, ids@, minimized, k as int),
            decreases ids.len() - k,
        {
            if let Some(entry) = self.windows.find_managed(ids[k]) {
                if entry.window.minimized == minimized {
                    out.push(entry.entity);
                }
            }
            k += 1;
        }
        out
    }

    /// Makes every strip but the one at `strip` let go of the windows
    /// `list`.
    pub fn release_elsewhere(&mut self, strip: usize, list: &Vec<Entity>)
        requires
            old(self).wf(),
        ensures
            final(self).wf(),
            final(self)@ == (WorldView {
                workspaces: released_elsewhere(old(self)@.workspaces, strip as int, list@),
                ..old(self)@
            }),
    {
        let n = self.workspaces.len();
        let mut i: usize = 0;
        while i < n
            invariant
                i <= n,
                n == self.workspaces@.len(),
                n == old(self).workspaces@.len(),
                self.wf(),
                self@ == (WorldView { workspaces: self@.workspaces, ..old(self)@ }),
                forall|j: int|
                    0 <= j < i ==> (#[trigger] self.workspaces@[j])@ == released_elsewhere(
                        old(self)@.workspaces,
                        strip as int,
                        list@,
                    )[j],
                forall|j: int| i <= j < n ==> self.workspaces@[j] == old(self).workspaces@[j],
            decreases n - i,
        {
            assert(old(self)@.workspaces[i as int] == old(self).workspaces@[i as int]@);
            assert(self.workspaces@[i as int].strip.wf());
            let ghost before = self.workspaces@;
            if i != strip {
                let mut taken = LayoutStrip::new(0);
                std::mem::swap(&mut self.workspaces[i].strip, &mut taken);
                let ghost cols = taken@;
                let mut k: usize = 0;
                while k < list.len()
                    invariant
                        k <= list.len(),
                        taken.wf(),
                        taken.spec_id() == old(self).workspaces@[i as int].strip.spec_id(),
                        taken@ == released(cols, list@, k as int),
                    decreases list.len() - k,
                {
                    taken.remove(list[k]);
                    k += 1;
                }
                std::mem::swap(&mut self.workspaces[i].strip, &mut taken);
            }
            proof {
                assert forall|j: int| 0 <= j < n implies (#[trigger] self.workspaces@[j]).strip.wf(
                ) by {
                    if j != i {
                        assert(self.workspaces@[j] == before[j]);
                        assert(before[j].strip.wf());
                    }
                }
            }
            i += 1;
        }
        assert(self@.workspaces =~= released_elsewhere(
            old(self)@.workspaces,
            strip as int,
            list@,
        ));
    }

    /// Brings the strip at `strip` in line with the windows `ids` that the
    /// operating system has on its workspace.
    pub fn refresh_workspace(&mut self, strip: usize, ids: &Vec<WinID>) -> (r: Vec<Effect>)
        requires
            old(self).wf(),
            strip < old(self).workspaces@.len(),
        ensures
            final(self).wf(),
            final(self)@ == old(self)@.workspace_refreshed(strip as int, ids@).0,
            r@ == old(self)@.workspace_refreshed(strip as int, ids@).1,
    {
        let shown = self.find_in_workspace(ids, false);
        let hidden = self.find_in_workspace(ids, true);
        let mut taken = LayoutStrip::new(0);
        assert(self.workspaces@[strip as int].strip.wf());
        assert(self@.workspaces[strip as int] == self.workspaces@[strip as int]@);
        std::mem::swap(&mut self.workspaces[strip].strip, &mut taken);
        refresh_strip(&mut taken, &shown);
        let first = if self.workspaces[strip].active.is_some() {
            match taken.get(0) {
                Ok(column) => column.top(),
                Err(_) => None,
            }
        } else {
            None
        };
        std::mem::swap(&mut self.workspaces[strip].strip, &mut taken);
        proof {
            self.lemma_strip_changed(old(self), strip as int);
        }
        self.release_elsewhere(strip, &shown);
        let mut told: Vec<Effect> = Vec::new();
        if let Some(e) = first {
            if self.windows.get(e).is_some() {
                told.push(Effect::FocusWithRaise(e));
            }
        }
        let ghost start = self@;
        let ghost raise = told@;
        let mut k: usize = 0;
        while k < hidden.len()
            invariant
                k <= hidden.len(),
                self.wf(),
                start.minimized_from(hidden@, raise, 0) == self@.minimized_from(
                    hidden@,
                    told@,
                    k as int,
                ),
            decreases hidden.len() - k,
        {
            if let Some(effect) = self.insert_unmanaged(hidden[k], Unmanaged::Minimized) {
                told.push(effect);
            }
            k += 1;
        }
        told
    }

    fn end_initialization(&mut self)
        ensures
            final(self).wf() == old(self).wf(),
            final(self)@ == (WorldView { initializing: None, ..old(self)@ }),
    {
        self.initializing = None;
    }
}

/// What the operating system says of the windows on each workspace, in
/// the order of the workspaces; nothing where it does not say.
pub open spec fn found_views(found: Seq<Option<Vec<WinID>>>) -> Seq<Option<Seq<WinID>>> {
    Seq::new(
        found.len(),
        |i: int|
            match found[i] {
                Some(ids) => Some(ids@),
                None => None,
            },
    )
}

impl WorldView {
    /// The model after the strips from the `k`-th on were brought in
    /// line, one after the other, each with the windows that `found` has
    /// for it, and what the outside is asked on the way, added to
    /// `told`. A strip for which `found` has nothing stays as it is.
    pub open spec fn workspaces_refreshed(
        self,
        found: Seq<Option<Seq<WinID>>>,
        told: Seq<Effect>,
        k: int,
    ) -> (WorldView, Seq<Effect>)
        decreases found.len() - k,
    {
        if k < 0 || k >= found.len() || k >= self.workspaces.len() {
            (self, told)
        } else {
            match found[k] {
                Some(ids) => self.workspace_refreshed(k, ids).0.workspaces_refreshed(
                    found,
                    told + self.workspace_refreshed(k, ids).1,
                    k + 1,
                ),
                None => self.workspaces_refreshed(found, told, k + 1),
            }
        }
    }

    /// The model at the end of the startup, and what the outside is
    /// asked: every strip is brought in line with the windows that the
    /// operating system has on its workspace, and then the
    /// initialization is over. Nothing happens while processes that ran
    /// before are still `pending`, or where the initialization is over
    /// already.
    pub open spec fn startup_finished(self, pending: bool, found: Seq<Option<Seq<WinID>>>) -> (
        WorldView,
        Seq<Effect>,
    ) {
        if self.initializing.is_none() || pending {
            (self, Seq::empty())
        } else {
            let done = self.workspaces_refreshed(found, Seq::empty(), 0);
            (WorldView { initializing: None, ..done.0 }, done.1)
        }
    }
}

fn tell_all(told: &mut Vec<Effect>, more: &Vec<Effect>)
    ensures
        final(told)@ == old(told)@ + more@,
{
    let mut i: usize = 0;
    while i < more.len()
        invariant
            i <= more.len(),
            told@ == old(told)@ + more@.take(i as int),
        decreases more.len() - i,
    {
        told.push(more[i]);
        assert(told@ =~= old(told)@ + more@.take(i + 1));
        i += 1;
    }
    assert(more@.take(more@.len() as int) =~= more@);
}

impl World {
    /// Ends the startup, given whether processes that ran before are
    /// still pending and the windows that the operating system has on
    /// each workspace: brings every strip in line, and then ends the
    /// initialization.
    pub fn finish_setup(&mut self, pending: bool, found: &Vec<Option<Vec<WinID>>>) -> (r: Vec<
        Effect,
    >)
        requires
            old(self).wf(),
        ensures
            final(self).wf(),
            (final(self)@, r@) == old(self)@.startup_finished(pending, found_views(found@)),
    {
        let mut told: Vec<Effect> = Vec::new();
        if self.initializing.is_none() || pending {
            return told;
        }
        let ghost views = found_views(found@);
        let mut k: usize = 0;
        while k < found.len() && k < self.workspaces.len()
            invariant
                k <= found.len(),
                self.wf(),
                views == found_views(found@),
                old(self)@.workspaces_refreshed(views, Seq::empty(), 0)
                    == self@.workspaces_refreshed(views, told@, k as int),
            decreases found.len() - k,
        {
            assert(views[k as int] == match found@[k as int] {
                Some(ids) => Some(ids@),
                None => None,
            });
            if let Some(ids) = &found[k] {
                let more = self.refresh_workspace(k, ids);
                tell_all(&mut told, &more);
            }
            k += 1;
        }
        self.end_initialization();
        told
    }
}

/// A window with the paddings that its properties give it; a padding
/// that they do not give stays as it is.
pub open spec fn with_defaults(window: Window, p: WindowProperties) -> Window {
    Window {
        vertical_padding: match p.vertical_padding {
            Some(v) => v,
            None => window.vertical_padding,
        },
        horizontal_padding: match p.horizontal_padding {
            Some(h) => h,
            None => window.horizontal_padding,
        },
        ..window
    }
}

/// The extent that a new window is to be given at first: where its
/// properties name a width and it does not float, that share of the
/// padded width of the display, at the height it has.
pub open spec fn first_extent(
    window: Window,
    p: WindowProperties,
    display_width: int,
    pad_left: int,
    pad_right: int,
) -> Option<Size> {
    match p.width {
        Some(width) if !p.floating => Some(
            IVec2 {
                x: configured_width(width, display_width, pad_left, pad_right) as i32,
                y: saturated(window.frame.spec_height()) as i32,
            },
        ),
        _ => None,
    }
}

/// Gives a new window the paddings that its properties name.
pub fn apply_window_defaults(window: Window, properties: &WindowProperties) -> (r: Window)
    ensures
        r == with_defaults(window, *properties),
{
    let mut out = window;
    if let Some(padding) = properties.vertical_padding {
        out.vertical_padding = padding;
    }
    if let Some(padding) = properties.horizontal_padding {
        out.horizontal_padding = padding;
    }
    out
}

/// The extent to ask of the operating system for a new window, if its
/// properties name a width.
pub fn initial_size(
    window: &Window,
    properties: &WindowProperties,
    display_width: i32,
    pad_left: i32,
    pad_right: i32,
) -> (r: Option<Size>)
    ensures
        r == first_extent(
            *window,
            *properties,
            display_width as int,
            pad_left as int,
            pad_right as int,
        ),
{
    match properties.width {
        Some(width) => {
            if properties.floating {
                None
            } else {
                Some(
                    IVec2 {
                        x: initial_width(width, display_width, pad_left, pad_right),
                        y: window.height(),
                    },
                )
            }
        },
        None => None,
    }
}

} // verus!
