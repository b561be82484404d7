//! The entity store: windows, displays and workspaces with their markers,
//! and the resources that are one of a kind.

use std::collections::HashMap;
use vstd::prelude::*;
use crate::ecs::{
    ActiveDisplayMarker, ActiveWorkspaceMarker, DisplayId, DockPosition, FocusFollowsMouse,
    FocusedMarker, FullWidthMarker, Initializing, MissionControlActive, PollForNotifications,
    RepositionMarker, ReshuffleAroundMarker, ResizeMarker, SkipReshuffle, StackAdjustedResize,
    StrayFocusEvent, Timeout, Unmanaged, WinID, WindowDraggedMarker, WindowSwipeMarker,
};
use crate::config::Config;
use crate::geometry::{IRect, IVec2, Origin, Size};
use crate::layout::{
    column_of, extent, extent_in_range, frame_of, frames_valid, holds, last_top_column,
    placements, positions, removed, Entity, LayoutStrip, WorkspaceId,
};
use crate::manager::{Display, Window};
use crate::ratio::{saturate, saturated, toward_zero, Ratio, RATIO_ONE};
use crate::systems::{
    anchor_offset, display_height, expose_window, exposed, get_display_height,
    get_moving_window_frame, moving_frame, pass, pass_in_range, position_layout_windows,
    viewport_offset, Stage, Target,
};

verus! {

/// A window of the store with the markers it carries.
#[derive(Clone, Copy, Debug, PartialEq, Eq, Structural)]
pub struct WindowEntry {
    pub entity: Entity,
    /// The application that owns the window.
    pub parent: Entity,
    pub window: Window,
    pub focused: Option<FocusedMarker>,
    pub unmanaged: Option<Unmanaged>,
    pub reposition: Option<RepositionMarker>,
    pub resize: Option<ResizeMarker>,
    pub reshuffle: Option<ReshuffleAroundMarker>,
    pub full_width: Option<FullWidthMarker>,
    pub swipe: Option<WindowSwipeMarker>,
    pub stack_adjusted: Option<StackAdjustedResize>,
}

/// A display of the store with the markers it carries.
#[derive(Clone, Copy, Debug, PartialEq, Eq, Structural)]
pub struct DisplayEntry {
    pub entity: Entity,
    pub display: Display,
    pub dock: Option<DockPosition>,
    pub active: Option<ActiveDisplayMarker>,
}

/// A workspace of the store: its strip, the display it is on, and the
/// markers it carries. A workspace without a display is an orphan.
#[derive(Debug)]
pub struct WorkspaceEntry {
    pub entity: Entity,
    pub strip: LayoutStrip,
    pub parent: Option<Entity>,
    pub active: Option<ActiveWorkspaceMarker>,
    pub timeout: Option<Timeout>,
}

/// A workspace as a value: its strip as the columns it holds.
pub struct WorkspaceView {
    pub entity: Entity,
    pub id: WorkspaceId,
    pub cols: Seq<Seq<Entity>>,
    pub parent: Option<Entity>,
    pub active: Option<ActiveWorkspaceMarker>,
    pub timeout: Option<Timeout>,
}

impl View for WorkspaceEntry {
    type V = WorkspaceView;

    open spec fn view(&self) -> WorkspaceView {
        WorkspaceView {
            entity: self.entity,
            id: self.strip.spec_id(),
            cols: self.strip@,
            parent: self.parent,
            active: self.active,
            timeout: self.timeout,
        }
    }
}

/// The views of a list of workspaces.
pub open spec fn workspace_views(v: Seq<WorkspaceEntry>) -> Seq<WorkspaceView> {
    Seq::new(v.len(), |i: int| v[i]@)
}

/// Index of the first window of `windows` whose entity is `e`, or
/// `windows.len()` where there is none.
pub open spec fn window_index(windows: Seq<WindowEntry>, e: Entity) -> int
    decreases windows.len(),
{
    if windows.len() == 0 {
        0
    } else if windows[0].entity == e {
        0
    } else {
        1 + window_index(windows.drop_first(), e)
    }
}

/// Index of the first window of `windows` that the operating system knows
/// as `id`, or `windows.len()` where there is none.
pub open spec fn window_index_by_id(windows: Seq<WindowEntry>, id: WinID) -> int
    decreases windows.len(),
{
    if windows.len() == 0 {
        0
    } else if windows[0].window.id == id {
        0
    } else {
        1 + window_index_by_id(windows.drop_first(), id)
    }
}

/// Index of the first window that is managed and known as `id`, or
/// `windows.len()` where there is none.
pub open spec fn managed_index_by_id(windows: Seq<WindowEntry>, id: WinID) -> int
    decreases windows.len(),
{
    if windows.len() == 0 {
        0
    } else if windows[0].window.id == id && windows[0].unmanaged.is_none() {
        0
    } else {
        1 + managed_index_by_id(windows.drop_first(), id)
    }
}

/// How many of the first `k` windows carry the focus marker.
pub open spec fn focused_count(windows: Seq<WindowEntry>, k: int) -> int
    decreases k,
{
    if k <= 0 {
        0
    } else {
        focused_count(windows, k - 1) + if windows[k - 1].focused.is_some() {
            1int
        } else {
            0int
        }
    }
}

/// Index of the first window that carries the focus marker, or
/// `windows.len()` where none does.
pub open spec fn first_focused(windows: Seq<WindowEntry>) -> int
    decreases windows.len(),
{
    if windows.len() == 0 {
        0
    } else if windows[0].focused.is_some() {
        0
    } else {
        1 + first_focused(windows.drop_first())
    }
}

pub proof fn lemma_window_index(windows: Seq<WindowEntry>, e: Entity)
    ensures
        0 <= window_index(windows, e) <= windows.len(),
        window_index(windows, e) < windows.len() ==> windows[window_index(windows, e)].entity
            == e,
        forall|j: int| 0 <= j < window_index(windows, e) ==> windows[j].entity != e,
    decreases windows.len(),
{
    if windows.len() > 0 && windows[0].entity != e {
        let rest = windows.drop_first();
        lemma_window_index(rest, e);
        assert forall|j: int| 0 <= j < window_index(windows, e) implies windows[j].entity
            != e by {
            if j > 0 {
                assert(windows[j] == rest[j - 1]);
            }
        }
    }
}

pub proof fn lemma_window_index_by_id(windows: Seq<WindowEntry>, id: WinID)
    ensures
        0 <= window_index_by_id(windows, id) <= windows.len(),
        window_index_by_id(windows, id) < windows.len() ==> windows[window_index_by_id(
            windows,
            id,
        )].window.id == id,
        forall|j: int| 0 <= j < window_index_by_id(windows, id) ==> windows[j].window.id != id,
    decreases windows.len(),
{
    if windows.len() > 0 && windows[0].window.id != id {
        let rest = windows.drop_first();
        lemma_window_index_by_id(rest, id);
        assert forall|j: int| 0 <= j < window_index_by_id(windows, id) implies windows[j].window.id
            != id by {
            if j > 0 {
                assert(windows[j] == rest[j - 1]);
            }
        }
    }
}

pub proof fn lemma_managed_index_by_id(windows: Seq<WindowEntry>, id: WinID)
    ensures
        0 <= managed_index_by_id(windows, id) <= windows.len(),
        managed_index_by_id(windows, id) < windows.len() ==> {
            &&& windows[managed_index_by_id(windows, id)].window.id == id
            &&& windows[managed_index_by_id(windows, id)].unmanaged.is_none()
        },
        forall|j: int|
            0 <= j < managed_index_by_id(windows, id) ==> !(windows[j].window.id == id
                && windows[j].unmanaged.is_none()),
    decreases windows.len(),
{
    if windows.len() > 0 && !(windows[0].window.id == id && windows[0].unmanaged.is_none()) {
        let rest = windows.drop_first();
        lemma_managed_index_by_id(rest, id);
        assert forall|j: int| 0 <= j < managed_index_by_id(windows, id) implies !(
        windows[j].window.id == id && windows[j].unmanaged.is_none()) by {
            if j > 0 {
                assert(windows[j] == rest[j - 1]);
            }
        }
    }
}

pub proof fn lemma_first_focused(windows: Seq<WindowEntry>)
    ensures
        0 <= first_focused(windows) <= windows.len(),
        first_focused(windows) < windows.len() ==> windows[first_focused(
            windows,
        )].focused.is_some(),
        forall|j: int| 0 <= j < first_focused(windows) ==> windows[j].focused.is_none(),
    decreases windows.len(),
{
    if windows.len() > 0 && windows[0].focused.is_none() {
        let rest = windows.drop_first();
        lemma_first_focused(rest);
        assert forall|j: int| 0 <= j < first_focused(windows) implies windows[j].focused.is_none(
        ) by {
            if j > 0 {
                assert(windows[j] == rest[j - 1]);
            }
        }
    }
}

/// The windows of the store and what can be asked of them.
pub struct Windows {
    pub all: Vec<WindowEntry>,
}

impl View for Windows {
    type V = Seq<WindowEntry>;

    open spec fn view(&self) -> Seq<WindowEntry> {
        self.all@
    }
}

impl Windows {
    pub fn new() -> (w: Windows)
        ensures
            w@ == Seq::<WindowEntry>::empty(),
    {
        Windows { all: Vec::new() }
    }

    /// Where in the table the window `entity` is.
    pub fn position(&self, entity: Entity) -> (r: Option<usize>)
        ensures
            match r {
                Some(i) => i == window_index(self@, entity) && i < self@.len(),
                None => window_index(self@, entity) == self@.len(),
            },
    {
        let mut i: usize = 0;
        while i < self.all.len()
            invariant
                i <= self.all.len(),
                forall|j: int| 0 <= j < i ==> self@[j].entity != entity,
            decreases self.all.len() - i,
        {
            if self.all[i].entity == entity {
                proof {
                    lemma_window_index(self@, entity);
                }
                return Some(i);
            }
            i += 1;
        }
        proof {
            lemma_window_index(self@, entity);
        }
        None
    }

    /// The window `entity` with its markers.
    pub fn get_managed(&self, entity: Entity) -> (r: Option<WindowEntry>)
        ensures
            r == (if window_index(self@, entity) < self@.len() {
                Some(self@[window_index(self@, entity)])
            } else {
                None
            }),
            r.is_some() ==> r.unwrap().entity == entity,
    {
        proof {
            lemma_window_index(self@, entity);
        }
        match self.position(entity) {
            Some(i) => Some(self.all[i]),
            None => None,
        }
    }

    /// The window `entity`.
    pub fn get(&self, entity: Entity) -> (r: Option<Window>)
        ensures
            r == (if window_index(self@, entity) < self@.len() {
                Some(self@[window_index(self@, entity)].window)
            } else {
                None
            }),
    {
        match self.position(entity) {
            Some(i) => Some(self.all[i].window),
            None => None,
        }
    }

    /// The first window that the operating system knows as `window_id`.
    pub fn find(&self, window_id: WinID) -> (r: Option<WindowEntry>)
        ensures
            r == (if window_index_by_id(self@, window_id) < self@.len() {
                Some(self@[window_index_by_id(self@, window_id)])
            } else {
                None
            }),
    {
        let mut i: usize = 0;
        while i < self.all.len()
            invariant
                i <= self.all.len(),
                forall|j: int| 0 <= j < i ==> self@[j].window.id != window_id,
            decreases self.all.len() - i,
        {
            if self.all[i].window.id == window_id {
                proof {
                    lemma_window_index_by_id(self@, window_id);
                }
                return Some(self.all[i]);
            }
            i += 1;
        }
        proof {
            lemma_window_index_by_id(self@, window_id);
        }
        None
    }

    /// The first managed window that the operating system knows as
    /// `window_id`.
    pub fn find_managed(&self, window_id: WinID) -> (r: Option<WindowEntry>)
        ensures
            r == (if managed_index_by_id(self@, window_id) < self@.len() {
                Some(self@[managed_index_by_id(self@, window_id)])
            } else {
                None
            }),
    {
        let mut i: usize = 0;
        while i < self.all.len()
            invariant
                i <= self.all.len(),
                forall|j: int|
                    0 <= j < i ==> !(self@[j].window.id == window_id
                        && self@[j].unmanaged.is_none()),
            decreases self.all.len() - i,
        {
            if self.all[i].window.id == window_id && self.all[i].unmanaged.is_none() {
                proof {
                    lemma_managed_index_by_id(self@, window_id);
                }
                return Some(self.all[i]);
            }
            i += 1;
        }
        proof {
            lemma_managed_index_by_id(self@, window_id);
        }
        None
    }

    /// The focused window: the one window that carries the focus marker.
    /// There is none where no window carries it, or more than one does.
    pub fn focused(&self) -> (r: Option<WindowEntry>)
        ensures
            r == (if focused_count(self@, self@.len() as int) == 1 {
                Some(self@[first_focused(self@)])
            } else {
                None
            }),
            r.is_some() ==> first_focused(self@) < self@.len() && r.unwrap().focused.is_some(),
    {
        let mut found: Option<WindowEntry> = None;
        let mut count: usize = 0;
        let mut i: usize = 0;
        proof {
            lemma_first_focused(self@);
        }
        while i < self.all.len()
            invariant
                i <= self.all.len(),
                count == focused_count(self@, i as int),
                count <= i,
                count == 0 ==> forall|j: int| 0 <= j < i ==> self@[j].focused.is_none(),
                count > 0 ==> first_focused(self@) < i && found == Some(
                    self@[first_focused(self@)],
                ),
                0 <= first_focused(self@) <= self@.len(),
                first_focused(self@) < self@.len() ==> self@[first_focused(
                    self@,
                )].focused.is_some(),
                forall|j: int| 0 <= j < first_focused(self@) ==> self@[j].focused.is_none(),
            decreases self.all.len() - i,
        {
            if self.all[i].focused.is_some() {
                if count == 0 {
                    found = Some(self.all[i]);
                    assert(first_focused(self@) == i) by {
                        let f = first_focused(self@);
                        if f > i {
                            assert(self@[i as int].focused.is_none());
                        } else if f < i {
                            assert(self@[f].focused.is_none());
                        }
                    }
                }
                count += 1;
            }
            i += 1;
        }
        if count == 1 {
            found
        } else {
            None
        }
    }
}

/// `windows` with the entry of the window `e` replaced by `entry`; as it
/// is where there is no such window.
pub open spec fn with_window(windows: Seq<WindowEntry>, e: Entity, entry: WindowEntry) -> Seq<
    WindowEntry,
> {
    let i = window_index(windows, e);
    if i < windows.len() {
        windows.update(i, entry)
    } else {
        windows
    }
}

/// The entry of the window `e`; meaningful where there is such a window.
pub open spec fn entry_of(windows: Seq<WindowEntry>, e: Entity) -> WindowEntry {
    windows[window_index(windows, e)]
}

/// There is a window `e`.
pub open spec fn has_window(windows: Seq<WindowEntry>, e: Entity) -> bool {
    window_index(windows, e) < windows.len()
}

impl Windows {
    /// Replaces the entry of the first window known as `id`. Nothing
    /// changes where there is no such window.
    pub fn put_at_id(&mut self, id: WinID, entry: WindowEntry)
        ensures
            final(self)@ == (if window_index_by_id(old(self)@, id) < old(self)@.len() {
                old(self)@.update(window_index_by_id(old(self)@, id), entry)
            } else {
                old(self)@
            }),
    {
        let mut i: usize = 0;
        while i < self.all.len()
            invariant
                i <= self.all.len(),
                self@ == old(self)@,
                forall|j: int| 0 <= j < i ==> self@[j].window.id != id,
            decreases self.all.len() - i,
        {
            if self.all[i].window.id == id {
                proof {
                    lemma_window_index_by_id(self@, id);
                }
                self.all.set(i, entry);
                return ;
            }
            i += 1;
        }
        proof {
            lemma_window_index_by_id(self@, id);
        }
    }

    /// Replaces the entry of the window that `entry` is about. Nothing
    /// changes where there is no such window.
    pub fn put(&mut self, entry: WindowEntry)
        ensures
            final(self)@ == with_window(old(self)@, entry.entity, entry),
    {
        if let Some(i) = self.position(entry.entity) {
            self.all.set(i, entry);
        }
    }
}

/// How many of the first `k` displays carry the marker of the active one.
pub open spec fn active_displays(displays: Seq<DisplayEntry>, k: int) -> int
    decreases k,
{
    if k <= 0 {
        0
    } else {
        active_displays(displays, k - 1) + if displays[k - 1].active.is_some() {
            1int
        } else {
            0int
        }
    }
}

/// Index of the first display at or after `from` that carries the marker
/// of the active one, if `wanted`, or that does not, if not; or
/// `displays.len()`.
pub open spec fn next_display(displays: Seq<DisplayEntry>, wanted: bool, from: int) -> int
    decreases displays.len() - from,
{
    if from < 0 || from >= displays.len() {
        displays.len() as int
    } else if displays[from].active.is_some() == wanted {
        from
    } else {
        next_display(displays, wanted, from + 1)
    }
}

/// How many of the first `k` workspaces carry the marker of the active one.
pub open spec fn active_workspaces(workspaces: Seq<WorkspaceView>, k: int) -> int
    decreases k,
{
    if k <= 0 {
        0
    } else {
        active_workspaces(workspaces, k - 1) + if workspaces[k - 1].active.is_some() {
            1int
        } else {
            0int
        }
    }
}

/// Index of the first workspace at or after `from` that carries the marker
/// of the active one, or `workspaces.len()`.
pub open spec fn next_active_workspace(workspaces: Seq<WorkspaceView>, from: int) -> int
    decreases workspaces.len() - from,
{
    if from < 0 || from >= workspaces.len() {
        workspaces.len() as int
    } else if workspaces[from].active.is_some() {
        from
    } else {
        next_active_workspace(workspaces, from + 1)
    }
}

pub proof fn lemma_next_display(displays: Seq<DisplayEntry>, wanted: bool, from: int)
    requires
        0 <= from <= displays.len(),
    ensures
        from <= next_display(displays, wanted, from) <= displays.len(),
        next_display(displays, wanted, from) < displays.len() ==> displays[next_display(
            displays,
            wanted,
            from,
        )].active.is_some() == wanted,
        forall|j: int|
            from <= j < next_display(displays, wanted, from) ==> displays[j].active.is_some()
                != wanted,
    decreases displays.len() - from,
{
    if from < displays.len() && displays[from].active.is_some() != wanted {
        lemma_next_display(displays, wanted, from + 1);
    }
}

pub proof fn lemma_next_active_workspace(workspaces: Seq<WorkspaceView>, from: int)
    requires
        0 <= from <= workspaces.len(),
    ensures
        from <= next_active_workspace(workspaces, from) <= workspaces.len(),
        next_active_workspace(workspaces, from) < workspaces.len() ==> workspaces[next_active_workspace(
            workspaces,
            from,
        )].active.is_some(),
        forall|j: int|
            from <= j < next_active_workspace(workspaces, from)
                ==> workspaces[j].active.is_none(),
    decreases workspaces.len() - from,
{
    if from < workspaces.len() && workspaces[from].active.is_none() {
        lemma_next_active_workspace(workspaces, from + 1);
    }
}

/// The active display and the active workspace, by their places in the
/// tables of the store.
#[derive(Clone, Copy, Debug, PartialEq, Eq, Structural)]
pub struct Active {
    pub display: usize,
    pub strip: usize,
}

/// The model: every window, display and workspace that is known, with
/// their markers, and the resources that are one of a kind.
pub struct World {
    pub windows: Windows,
    pub displays: Vec<DisplayEntry>,
    pub workspaces: Vec<WorkspaceEntry>,
    /// Focus events for windows that are not known yet.
    pub stray_focus: Vec<(Timeout, StrayFocusEvent)>,
    /// The window that is being dragged, if any.
    pub dragged: Option<(Timeout, WindowDraggedMarker)>,
    pub skip_reshuffle: SkipReshuffle,
    pub mission_control: MissionControlActive,
    pub focus_follows_mouse: FocusFollowsMouse,
    pub poll_for_notifications: Option<PollForNotifications>,
    pub initializing: Option<Initializing>,
    pub config: Config,
    /// The workspace that was last seen to be shown on the active
    /// display.
    pub watched_space: WorkspaceId,
    /// The entity that is handed out next.
    pub next_entity: Entity,
}

/// The model as a value.
pub struct WorldView {
    pub windows: Seq<WindowEntry>,
    pub displays: Seq<DisplayEntry>,
    pub workspaces: Seq<WorkspaceView>,
    pub stray_focus: Seq<(Timeout, StrayFocusEvent)>,
    pub dragged: Option<(Timeout, WindowDraggedMarker)>,
    pub skip_reshuffle: SkipReshuffle,
    pub mission_control: MissionControlActive,
    pub focus_follows_mouse: FocusFollowsMouse,
    pub poll_for_notifications: Option<PollForNotifications>,
    pub initializing: Option<Initializing>,
    pub config: Config,
    pub watched_space: WorkspaceId,
    pub next_entity: Entity,
}

impl View for World {
    type V = WorldView;

    open spec fn view(&self) -> WorldView {
        WorldView {
            windows: self.windows@,
            displays: self.displays@,
            workspaces: workspace_views(self.workspaces@),
            stray_focus: self.stray_focus@,
            dragged: self.dragged,
            skip_reshuffle: self.skip_reshuffle,
            mission_control: self.mission_control,
            focus_follows_mouse: self.focus_follows_mouse,
            poll_for_notifications: self.poll_for_notifications,
            initializing: self.initializing,
            config: self.config,
            watched_space: self.watched_space,
            next_entity: self.next_entity,
        }
    }
}

impl WorldView {
    /// The displays and the workspaces are no more than a machine can
    /// count, as those of every store are.
    pub open spec fn countable(self) -> bool {
        self.displays.len() <= usize::MAX && self.workspaces.len() <= usize::MAX
    }

    /// The place of the active display and of the active workspace in the
    /// tables: there is an active display where exactly one display
    /// carries the marker, and likewise for workspaces; and nothing is
    /// active unless both are.
    pub open spec fn active(self) -> Option<Active> {
        if active_displays(self.displays, self.displays.len() as int) == 1 && active_workspaces(
            self.workspaces,
            self.workspaces.len() as int,
        ) == 1 {
            Some(
                Active {
                    display: next_display(self.displays, true, 0) as usize,
                    strip: next_active_workspace(self.workspaces, 0) as usize,
                },
            )
        } else {
            None
        }
    }

    /// What a layout pass on the display at `display` has to know of it.
    pub open spec fn stage(self, display: int) -> Stage {
        let entry = self.displays[display];
        let other = next_display(self.displays, false, 0);
        Stage {
            display: entry.display.bounds(),
            menubar_height: entry.display.menubar_height(),
            height: saturated(display_height(entry.display.bounds(), entry.dock)) as i32,
            padding: self.config.edge_padding(),
            sliver_width: self.config.sliver_width(),
            sliver_height: self.config.sliver_height(),
            display_above: other < self.displays.len() && entry.display.bounds().min.y
                > self.displays[other].display.bounds().min.y,
        }
    }

    /// The model with the columns of the strip at `strip` replaced.
    pub open spec fn with_cols(self, strip: int, cols: Seq<Seq<Entity>>) -> WorldView {
        WorldView {
            workspaces: self.workspaces.update(
                strip,
                WorkspaceView { cols, ..self.workspaces[strip] },
            ),
            ..self
        }
    }
}

impl World {
    /// The displays and workspaces of a store can be counted.
    pub proof fn lemma_countable(&self)
        ensures
            self@.countable(),
    {
        assert(self.displays@.len() == self.displays.len());
        assert(self.workspaces@.len() == self.workspaces.len());
    }

    /// Every strip of the store is sound.
    pub open spec fn wf(&self) -> bool {
        forall|i: int|
            0 <= i < self.workspaces@.len() ==> (#[trigger] self.workspaces@[i]).strip.wf()
    }

    /// An empty store with this configuration, at the start of its
    /// initialization.
    pub fn new(config: Config) -> (w: World)
        ensures
            w.wf(),
            w@ == (WorldView {
                windows: Seq::empty(),
                displays: Seq::empty(),
                workspaces: Seq::empty(),
                stray_focus: Seq::empty(),
                dragged: None,
                skip_reshuffle: SkipReshuffle(false),
                mission_control: MissionControlActive(false),
                focus_follows_mouse: FocusFollowsMouse(None),
                poll_for_notifications: Some(PollForNotifications),
                initializing: Some(Initializing),
                config,
                watched_space: 0,
                next_entity: 0,
            }),
    {
        let w = World {
            windows: Windows::new(),
            displays: Vec::new(),
            workspaces: Vec::new(),
            stray_focus: Vec::new(),
            dragged: None,
            skip_reshuffle: SkipReshuffle(false),
            mission_control: MissionControlActive(false),
            focus_follows_mouse: FocusFollowsMouse(None),
            poll_for_notifications: Some(PollForNotifications),
            initializing: Some(Initializing),
            config,
            watched_space: 0,
            next_entity: 0,
        };
        assert(w@.workspaces =~= Seq::empty());
        assert(w@.windows =~= Seq::empty());
        assert(w@.displays =~= Seq::empty());
        assert(w@.stray_focus =~= Seq::empty());
        w
    }

    /// Finds the active display and the active workspace.
    pub fn active(&self) -> (r: Option<Active>)
        ensures
            r == self@.active(),
            r.is_some() ==> {
                &&& r.unwrap().display < self.displays@.len()
                &&& r.unwrap().strip < self.workspaces@.len()
                &&& self.displays@[r.unwrap().display as int].active.is_some()
                &&& self.workspaces@[r.unwrap().strip as int].active.is_some()
            },
    {
        let ghost views = workspace_views(self.workspaces@);
        let mut display: usize = 0;
        let mut displays: usize = 0;
        let mut i: usize = 0;
        proof {
            lemma_next_display(self.displays@, true, 0);
        }
        while i < self.displays.len()
            invariant
                i <= self.displays.len(),
                displays == active_displays(self.displays@, i as int),
                displays <= i,
                displays == 0 ==> next_display(self.displays@, true, 0) == next_display(
                    self.displays@,
                    true,
                    i as int,
                ),
                displays > 0 ==> display == next_display(self.displays@, true, 0) && display < i,
            decreases self.displays.len() - i,
        {
            if self.displays[i].active.is_some() {
                if displays == 0 {
                    display = i;
                }
                displays += 1;
            }
            i += 1;
        }
        let mut strip: usize = 0;
        let mut strips: usize = 0;
        let mut k: usize = 0;
        while k < self.workspaces.len()
            invariant
                k <= self.workspaces.len(),
                views == workspace_views(self.workspaces@),
                strips == active_workspaces(views, k as int),
                strips <= k,
                strips == 0 ==> next_active_workspace(views, 0) == next_active_workspace(
                    views,
                    k as int,
                ),
                strips > 0 ==> strip == next_active_workspace(views, 0) && strip < k,
            decreases self.workspaces.len() - k,
        {
            assert(views[k as int] == self.workspaces@[k as int]@);
            if self.workspaces[k].active.is_some() {
                if strips == 0 {
                    strip = k;
                }
                strips += 1;
            }
            k += 1;
        }
        if displays == 1 && strips == 1 {
            proof {
                lemma_next_display(self.displays@, true, 0);
                lemma_next_active_workspace(views, 0);
                assert(views[strip as int] == self.workspaces@[strip as int]@);
            }
            Some(Active { display, strip })
        } else {
            None
        }
    }

    /// The first display that is not the active one.
    pub fn other_display(&self) -> (r: Option<DisplayEntry>)
        ensures
            r == (if next_display(self.displays@, false, 0) < self.displays@.len() {
                Some(self.displays@[next_display(self.displays@, false, 0)])
            } else {
                None
            }),
    {
        let mut i: usize = 0;
        while i < self.displays.len()
            invariant
                i <= self.displays.len(),
                next_display(self.displays@, false, 0) == next_display(
                    self.displays@,
                    false,
                    i as int,
                ),
            decreases self.displays.len() - i,
        {
            if self.displays[i].active.is_none() {
                return Some(self.displays[i]);
            }
            i += 1;
        }
        None
    }

    /// Gathers what a layout pass on the display at `display` has to know.
    pub fn stage(&self, display: usize) -> (r: Stage)
        requires
            display < self.displays@.len(),
        ensures
            r == self@.stage(display as int),
    {
        let entry = self.displays[display];
        let display_above = match self.other_display() {
            Some(other) => entry.display.bounds().min.y > other.display.bounds().min.y,
            None => false,
        };
        Stage {
            display: entry.display.bounds(),
            menubar_height: entry.display.menubar_height(),
            height: get_display_height(entry.display.bounds(), entry.dock),
            padding: self.config.edge_padding(),
            sliver_width: self.config.sliver_width(),
            sliver_height: self.config.sliver_height(),
            display_above,
        }
    }

    /// Asks for the window `entity` to be moved to `origin` on the display
    /// `display_id`. Nothing happens where there is no such window.
    pub fn reposition_entity(&mut self, entity: Entity, origin: Origin, display_id: DisplayId)
        requires
            old(self).wf(),
        ensures
            final(self).wf(),
            final(self)@ == (WorldView {
                windows: repositioned(old(self)@.windows, entity, origin, display_id),
                ..old(self)@
            }),
    {
        self.windows.reposition_entity(entity, origin, display_id);
    }

    /// Asks for the window `entity` to be given the extent `size` on the
    /// display `display_id`. Nothing happens where there is no such window
    /// or where `size` is not positive in both directions.
    pub fn resize_entity(&mut self, entity: Entity, size: Size, display_id: DisplayId)
        requires
            old(self).wf(),
        ensures
            final(self).wf(),
            final(self)@ == (WorldView {
                windows: resized(old(self)@.windows, entity, size, display_id),
                ..old(self)@
            }),
    {
        self.windows.resize_entity(entity, size, display_id);
    }

    /// Asks for the strip to be laid out anew around the window `entity`.
    /// Nothing happens where there is no such window.
    pub fn reshuffle_around(&mut self, entity: Entity)
        requires
            old(self).wf(),
        ensures
            final(self).wf(),
            final(self)@ == (WorldView {
                windows: marked_for_reshuffle(old(self)@.windows, entity),
                ..old(self)@
            }),
    {
        self.windows.reshuffle_around(entity);
    }

    /// Applies `change` to the strip at `strip`.
    pub fn remove_from_strip(&mut self, strip: usize, entity: Entity)
        requires
            old(self).wf(),
            strip < old(self).workspaces@.len(),
        ensures
            final(self).wf(),
            final(self)@ == old(self)@.with_cols(
                strip as int,
                removed(old(self)@.workspaces[strip as int].cols, entity),
            ),
    {
        let ghost before = self.workspaces@;
        let mut taken = LayoutStrip::new(0);
        assert(self.workspaces@[strip as int].strip.wf());
        std::mem::swap(&mut self.workspaces[strip].strip, &mut taken);
        taken.remove(entity);
        std::mem::swap(&mut self.workspaces[strip].strip, &mut taken);
        proof {
            self.lemma_strip_changed(old(self), strip as int);
        }
    }

    /// A store that differs from `other` in the columns of one strip
    /// only is sound if `other` is, and its view is that of `other` with
    /// those columns put in.
    pub proof fn lemma_strip_changed(&self, other: &World, strip: int)
        requires
            other.wf(),
            0 <= strip < other.workspaces@.len(),
            self.workspaces@.len() == other.workspaces@.len(),
            forall|i: int|
                0 <= i < other.workspaces@.len() && i != strip ==> self.workspaces@[i]
                    == other.workspaces@[i],
            self.workspaces@[strip].strip.wf(),
            self.workspaces@[strip].strip.spec_id() == other.workspaces@[strip].strip.spec_id(),
            self.workspaces@[strip].entity == other.workspaces@[strip].entity,
            self.workspaces@[strip].parent == other.workspaces@[strip].parent,
            self.workspaces@[strip].active == other.workspaces@[strip].active,
            self.workspaces@[strip].timeout == other.workspaces@[strip].timeout,
            self.windows@ == other.windows@,
            self.displays@ == other.displays@,
            self.stray_focus@ == other.stray_focus@,
            self.dragged == other.dragged,
            self.skip_reshuffle == other.skip_reshuffle,
            self.mission_control == other.mission_control,
            self.focus_follows_mouse == other.focus_follows_mouse,
            self.poll_for_notifications == other.poll_for_notifications,
            self.initializing == other.initializing,
            self.config == other.config,
            self.watched_space == other.watched_space,
            self.next_entity == other.next_entity,
        ensures
            self.wf(),
            self@ == other@.with_cols(strip, self.workspaces@[strip].strip@),
    {
        assert forall|i: int| 0 <= i < self.workspaces@.len() implies (
        #[trigger] self.workspaces@[i]).strip.wf() by {
            if i != strip {
                assert(other.workspaces@[i].strip.wf());
            }
        }
        assert(self@.workspaces =~= other@.with_cols(
            strip,
            self.workspaces@[strip].strip@,
        ).workspaces);
    }
}

/// none, and of two windows with one entity the first counts.
pub open spec fn frames_of(windows: Seq<WindowEntry>, active: DisplayId, k: int) -> Map<
    Entity,
    IRect,
>
    decreases k,
{
    if k <= 0 {
        Map::empty()
    } else {
        let entry = windows[k - 1];
        let frame = moving_frame(entry.window.frame, entry.reposition, entry.resize, active);
        let before = frames_of(windows, active, k - 1);
        if frame.valid() && !before.contains_key(entry.entity) {
            before.insert(entry.entity, frame)
        } else {
            before
        }
    }
}

/// The horizontal padding of the first `k` windows, by entity.
pub open spec fn h_pads_of(windows: Seq<WindowEntry>, k: int) -> Map<Entity, i32>
    decreases k,
{
    if k <= 0 {
        Map::empty()
    } else {
        let entry = windows[k - 1];
        let before = h_pads_of(windows, k - 1);
        if !before.contains_key(entry.entity) {
            before.insert(entry.entity, entry.window.horizontal_padding)
        } else {
            before
        }
    }
}

/// Every frame that a window is going to have is a valid frame.
pub proof fn lemma_frames_of_valid(windows: Seq<WindowEntry>, active: DisplayId, k: int)
    requires
        0 <= k <= windows.len(),
    ensures
        frames_valid(frames_of(windows, active, k)),
    decreases k,
{
    if k > 0 {
        lemma_frames_of_valid(windows, active, k - 1);
    }
}

fn frame_is_valid(frame: &IRect) -> (r: bool)
    ensures
        r == frame.valid(),
{
    frame.min.x <= frame.max.x && frame.min.y <= frame.max.y && frame.max.x as i64
        - frame.min.x as i64 <= 0x7fff_ffff && frame.max.y as i64 - frame.min.y as i64
        <= 0x7fff_ffff
}

impl Windows {
    /// The frame that every window is going to have on the display
    /// `active`.
    pub fn moving_frames(&self, active: DisplayId) -> (r: HashMap<Entity, IRect>)
        ensures
            r@ == frames_of(self@, active, self@.len() as int),
            frames_valid(r@),
    {
        broadcast use vstd::std_specs::hash::group_hash_axioms;

        let mut out: HashMap<Entity, IRect> = HashMap::new();
        let mut i: usize = 0;
        while i < self.all.len()
            invariant
                i <= self.all.len(),
                out@ == frames_of(self@, active, i as int),
            decreases self.all.len() - i,
        {
            let entry = self.all[i];
            let frame = get_moving_window_frame(
                entry.window.frame,
                entry.reposition,
                entry.resize,
                active,
            );
            if frame_is_valid(&frame) && !out.contains_key(&entry.entity) {
                out.insert(entry.entity, frame);
            }
            i += 1;
        }
        proof {
            lemma_frames_of_valid(self@, active, self@.len() as int);
        }
        out
    }

    /// The horizontal padding of every window.
    pub fn horizontal_paddings(&self) -> (r: HashMap<Entity, i32>)
        ensures
            r@ == h_pads_of(self@, self@.len() as int),
    {
        broadcast use vstd::std_specs::hash::group_hash_axioms;

        let mut out: HashMap<Entity, i32> = HashMap::new();
        let mut i: usize = 0;
        while i < self.all.len()
            invariant
                i <= self.all.len(),
                out@ == h_pads_of(self@, i as int),
            decreases self.all.len() - i,
        {
            let entry = self.all[i];
            if !out.contains_key(&entry.entity) {
                out.insert(entry.entity, entry.window.horizontal_padding);
            }
            i += 1;
        }
        out
    }
}

/// The frame that brings the window `e` into view on `display`: the
/// frame that it is going to have, moved between the padded edges of the
/// display and beside its dock.
pub open spec fn exposed_window(
    windows: Seq<WindowEntry>,
    display: DisplayEntry,
    stage: Stage,
    e: Entity,
) -> IRect {
    let entry = entry_of(windows, e);
    exposed(
        moving_frame(entry.window.frame, entry.reposition, entry.resize, display.display.id()),
        display.display.bounds(),
        display.dock,
        stage.padding.right as int,
        stage.padding.left as int,
    )
}

/// What the layout pass around the window `e` asks of the windows, seen
/// from a display with its stage and the strip shown on it.
///
/// The window's intended frame is brought into view; the scroll offset is
/// the one that puts the window's column there; the strip is laid out at
/// that offset. There is nothing to ask where the window is not known or
/// not in the strip, where its column has no place in the strip, or where
/// the arithmetic of the pass would leave the range of `i32`.
pub open spec fn reshuffle_targets(
    windows: Seq<WindowEntry>,
    display: DisplayEntry,
    cols: Seq<Seq<Entity>>,
    stage: Stage,
    e: Entity,
) -> Option<Seq<Target>> {
    let frames = frames_of(windows, display.display.id(), windows.len() as int);
    let h_pads = h_pads_of(windows, windows.len() as int);
    let entry = entry_of(windows, e);
    let frame = exposed(
        moving_frame(entry.window.frame, entry.reposition, entry.resize, display.display.id()),
        display.display.bounds(),
        display.dock,
        stage.padding.right as int,
        stage.padding.left as int,
    );
    let index = column_of(cols, e);
    let places = positions(cols, frames, cols.len() as int);
    let offset = saturated(
        anchor_offset(places[index].1, frame.min.x as int, display.display.bounds().min.x as int),
    );
    if !has_window(windows, e) || !holds(cols, e) || !extent_in_range(cols, frames) || index
        >= places.len() || !pass_in_range(cols, frames, offset, stage) {
        None
    } else {
        Some(pass(cols, frames, h_pads, offset, stage))
    }
}

/// Computes what the layout pass around the window `entity` asks of the
/// windows.
pub fn reshuffle_window(
    windows: &Windows,
    frames: &HashMap<Entity, IRect>,
    h_pads: &HashMap<Entity, i32>,
    display: &DisplayEntry,
    strip: &LayoutStrip,
    stage: &Stage,
    entity: Entity,
) -> (r: Option<Vec<Target>>)
    requires
        strip.wf(),
        frames@ == frames_of(windows@, display.display.id(), windows@.len() as int),
        h_pads@ == h_pads_of(windows@, windows@.len() as int),
    ensures
        match r {
            Some(v) => reshuffle_targets(windows@, *display, strip@, *stage, entity) == Some(v@),
            None => reshuffle_targets(windows@, *display, strip@, *stage, entity).is_none(),
        },
{
    proof {
        lemma_frames_of_valid(windows@, display.display.id(), windows@.len() as int);
    }
    let entry = match windows.get_managed(entity) {
        Some(entry) => entry,
        None => {
            return None;
        },
    };
    let moving = get_moving_window_frame(
        entry.window.frame,
        entry.reposition,
        entry.resize,
        display.display.id(),
    );
    let frame = expose_window(moving, display.display.bounds(), display.dock, stage.padding);
    let index = match strip.index_of(entity) {
        Ok(index) => index,
        Err(_) => {
            return None;
        },
    };
    if !strip.extent_fits(frames) {
        return None;
    }
    let places = strip.absolute_positions(frames);
    if index >= places.len() {
        return None;
    }
    assert(placements(places@)[index as int].1 == places@[index as int].1);
    let offset = viewport_offset(places[index].1, frame.min.x, display.display.bounds().min.x);
    let viewport = stage.viewport();
    let padded = crate::ratio::saturate(offset as i64 + stage.padding.left as i64);
    if !strip.layout_fits(padded, &viewport, frames) {
        return None;
    }
    Some(position_layout_windows(offset, strip, frames, h_pads, stage))
}

/// The windows after the window `e` was asked to move to `origin`.
pub open spec fn repositioned(
    windows: Seq<WindowEntry>,
    e: Entity,
    origin: Origin,
    display_id: DisplayId,
) -> Seq<WindowEntry> {
    with_window(
        windows,
        e,
        WindowEntry {
            reposition: Some(RepositionMarker { origin, display_id }),
            ..entry_of(windows, e)
        },
    )
}

/// The windows after the window `e` was asked to take the extent `size`:
/// as they are where `size` is not positive in both directions.
pub open spec fn resized(windows: Seq<WindowEntry>, e: Entity, size: Size, display_id: DisplayId)
    -> Seq<WindowEntry> {
    if size.x > 0 && size.y > 0 {
        with_window(
            windows,
            e,
            WindowEntry { resize: Some(ResizeMarker { size, display_id }), ..entry_of(windows, e) },
        )
    } else {
        windows
    }
}

/// The windows after a layout pass around the window `e` was asked for.
pub open spec fn marked_for_reshuffle(windows: Seq<WindowEntry>, e: Entity) -> Seq<WindowEntry> {
    with_window(
        windows,
        e,
        WindowEntry { reshuffle: Some(ReshuffleAroundMarker), ..entry_of(windows, e) },
    )
}

/// The windows after the request for a layout pass around `e` was taken
/// back.
pub open spec fn unmarked_for_reshuffle(windows: Seq<WindowEntry>, e: Entity) -> Seq<WindowEntry> {
    with_window(windows, e, WindowEntry { reshuffle: None, ..entry_of(windows, e) })
}

/// The windows after one window was asked what `target` says: first the
/// new size, then the new place.
pub open spec fn with_target(windows: Seq<WindowEntry>, target: Target, display_id: DisplayId)
    -> Seq<WindowEntry> {
    let sized = match target.resize {
        Some(size) => resized(windows, target.entity, size, display_id),
        None => windows,
    };
    match target.reposition {
        Some(origin) => repositioned(sized, target.entity, origin, display_id),
        None => sized,
    }
}

/// The windows after the first `k` of `targets` were asked of them.
pub open spec fn with_targets(
    windows: Seq<WindowEntry>,
    targets: Seq<Target>,
    display_id: DisplayId,
    k: int,
) -> Seq<WindowEntry>
    decreases k,
{
    if k <= 0 {
        windows
    } else {
        with_target(with_targets(windows, targets, display_id, k - 1), targets[k - 1], display_id)
    }
}

impl Windows {
    /// Asks for the window `entity` to be moved to `origin`.
    pub fn reposition_entity(&mut self, entity: Entity, origin: Origin, display_id: DisplayId)
        ensures
            final(self)@ == repositioned(old(self)@, entity, origin, display_id),
    {
        if let Some(entry) = self.get_managed(entity) {
            self.put(
                WindowEntry { reposition: Some(RepositionMarker { origin, display_id }), ..entry },
            );
        }
    }

    /// Asks for the window `entity` to be given the extent `size`, where
    /// that is positive in both directions.
    pub fn resize_entity(&mut self, entity: Entity, size: Size, display_id: DisplayId)
        ensures
            final(self)@ == resized(old(self)@, entity, size, display_id),
    {
        if size.x <= 0 || size.y <= 0 {
            return ;
        }
        if let Some(entry) = self.get_managed(entity) {
            self.put(WindowEntry { resize: Some(ResizeMarker { size, display_id }), ..entry });
        }
    }

    /// Asks for a layout pass around the window `entity`.
    pub fn reshuffle_around(&mut self, entity: Entity)
        ensures
            final(self)@ == marked_for_reshuffle(old(self)@, entity),
    {
        if let Some(entry) = self.get_managed(entity) {
            self.put(WindowEntry { reshuffle: Some(ReshuffleAroundMarker), ..entry });
        }
    }

    /// Takes back the request for a layout pass around `entity`.
    pub fn clear_reshuffle(&mut self, entity: Entity)
        ensures
            final(self)@ == unmarked_for_reshuffle(old(self)@, entity),
    {
        if let Some(entry) = self.get_managed(entity) {
            self.put(WindowEntry { reshuffle: None, ..entry });
        }
    }

    /// Asks of the windows what `targets` say, in order.
    pub fn apply_targets(&mut self, targets: &Vec<Target>, display_id: DisplayId)
        ensures
            final(self)@ == with_targets(old(self)@, targets@, display_id, targets@.len() as int),
    {
        let mut k: usize = 0;
        while k < targets.len()
            invariant
                k <= targets.len(),
                self@ == with_targets(old(self)@, targets@, display_id, k as int),
            decreases targets.len() - k,
        {
            let target = targets[k];
            if let Some(size) = target.resize {
                self.resize_entity(target.entity, size, display_id);
            }
            if let Some(origin) = target.reposition {
                self.reposition_entity(target.entity, origin, display_id);
            }
            k += 1;
        }
    }

    /// A copy of the table.
    pub fn snapshot(&self) -> (r: Windows)
        ensures
            r@ == self@,
    {
        let mut all: Vec<WindowEntry> = Vec::new();
        let mut i: usize = 0;
        while i < self.all.len()
            invariant
                i <= self.all.len(),
                all@ == self@.take(i as int),
            decreases self.all.len() - i,
        {
            all.push(self.all[i]);
            assert(all@ =~= self@.take(i + 1));
            i += 1;
        }
        assert(self@.take(self@.len() as int) =~= self@);
        Windows { all }
    }
}

/// The windows after the layout passes that the windows of `seen` from the
/// `k`-th on ask for, one after the other: the request is taken back, and
/// what the pass around the window asks is asked of the windows. Every
/// pass sees the windows as `seen` has them.
pub open spec fn reshuffle_steps(
    windows: Seq<WindowEntry>,
    seen: Seq<WindowEntry>,
    display: DisplayEntry,
    cols: Seq<Seq<Entity>>,
    stage: Stage,
    k: int,
) -> Seq<WindowEntry>
    decreases seen.len() - k,
{
    if k < 0 || k >= seen.len() {
        windows
    } else if seen[k].reshuffle.is_some() {
        let e = seen[k].entity;
        let cleared = unmarked_for_reshuffle(windows, e);
        let next = match reshuffle_targets(seen, display, cols, stage, e) {
            Some(targets) => with_targets(
                cleared,
                targets,
                display.display.id(),
                targets.len() as int,
            ),
            None => cleared,
        };
        reshuffle_steps(next, seen, display, cols, stage, k + 1)
    } else {
        reshuffle_steps(windows, seen, display, cols, stage, k + 1)
    }
}

impl WorldView {
    /// The model after the layout passes that are asked for: as it is
    /// where there is no active display and workspace.
    pub open spec fn reshuffled(self) -> WorldView {
        match self.active() {
            None => self,
            Some(active) => WorldView {
                windows: reshuffle_steps(
                    self.windows,
                    self.windows,
                    self.displays[active.display as int],
                    self.workspaces[active.strip as int].cols,
                    self.stage(active.display as int),
                    0,
                ),
                ..self
            },
        }
    }
}

impl World {
    /// Runs the layout passes that windows ask for: for every window that
    /// carries the marker, the marker is removed and the active strip is
    /// laid out so that the window is in view. The passes leave the strips
    /// as they are, and change nothing of a window but what it is asked to
    /// become.
    pub fn reshuffle_layout_strip(&mut self)
        requires
            old(self).wf(),
        ensures
            final(self).wf(),
            final(self)@ == old(self)@.reshuffled(),
    {
        let active = match self.active() {
            Some(active) => active,
            None => {
                return ;
            },
        };
        let display = self.displays[active.display];
        let stage = self.stage(active.display);
        let seen = self.windows.snapshot();
        let frames = seen.moving_frames(display.display.id());
        let h_pads = seen.horizontal_paddings();
        let strip = &self.workspaces[active.strip].strip;
        let ghost cols = strip@;
        assert(cols == self@.workspaces[active.strip as int].cols);
        let mut k: usize = 0;
        while k < seen.all.len()
            invariant
                k <= seen.all.len(),
                strip.wf(),
                cols == strip@,
                self.wf(),
                self@ == (WorldView { windows: self.windows@, ..old(self)@ }),
                frames@ == frames_of(seen@, display.display.id(), seen@.len() as int),
                h_pads@ == h_pads_of(seen@, seen@.len() as int),
                reshuffle_steps(old(self).windows@, seen@, display, cols, stage, 0)
                    == reshuffle_steps(self.windows@, seen@, display, cols, stage, k as int),
            decreases seen.all.len() - k,
        {
            let entry = seen.all[k];
            if entry.reshuffle.is_some() {
                self.windows.clear_reshuffle(entry.entity);
                let found = reshuffle_window(
                    &seen,
                    &frames,
                    &h_pads,
                    &display,
                    strip,
                    &stage,
                    entry.entity,
                );
                if let Some(targets) = found {
                    self.windows.apply_targets(&targets, display.display.id());
                }
            }
            k += 1;
        }
    }
}

/// window `e`, or the number of workspaces.
pub open spec fn strip_holding(workspaces: Seq<WorkspaceView>, e: Entity, from: int) -> int
    decreases workspaces.len() - from,
{
    if from < 0 || from >= workspaces.len() {
        workspaces.len() as int
    } else if holds(workspaces[from].cols, e) {
        from
    } else {
        strip_holding(workspaces, e, from + 1)
    }
}

/// How many pixels a swipe that travelled `delta` of the viewport's width
/// scrolls: the fraction of the width, rounded toward zero.
pub open spec fn swipe_shift(delta: Ratio, width: int) -> int {
    saturated(toward_zero(delta.ppm() * saturated(width), RATIO_ONE as int))
}

/// The scroll offset after a swipe: the offset before it and the shift,
/// held, unless the strip slides freely, between the offset that shows
/// the left end of the strip at the left padding and the one that shows
/// its right end at the right padding, or the former where the strip is
/// narrower than the viewport.
pub open spec fn swiped_offset(
    offset: int,
    shift: int,
    total: int,
    width: int,
    pad_left: int,
    pad_right: int,
    free_slide: bool,
) -> int {
    if free_slide {
        offset + shift
    } else {
        let left = -pad_left;
        let right = total - (width - pad_left - pad_right) - pad_left;
        crate::geometry::spec_clamp(offset + shift, left, crate::geometry::spec_max(right, left))
    }
}

/// What a swipe on the window `e` asks of the windows.
///
/// A window that is out of the tiling is asked to move by the shift
/// alone. For any other the strip is laid out at the offset that the
/// swipe scrolls it to, provided that the window is the top of its
/// column. There is nothing to ask where the window's frame is not
/// known, or where the arithmetic would leave the range of `i32`.
pub open spec fn swipe_targets(
    windows: Seq<WindowEntry>,
    display: DisplayEntry,
    cols: Seq<Seq<Entity>>,
    stage: Stage,
    free_slide: bool,
    e: Entity,
    delta: Ratio,
    unmanaged: bool,
) -> Option<Seq<Target>> {
    let frames = frames_of(windows, display.display.id(), windows.len() as int);
    let h_pads = h_pads_of(windows, windows.len() as int);
    let bounds = display.display.bounds();
    let shift = swipe_shift(delta, bounds.spec_width());
    let at = last_top_column(cols, frames, e, cols.len() as int);
    if !frames.contains_key(e) {
        None
    } else if unmanaged {
        Some(
            seq![
                Target {
                    entity: e,
                    resize: None,
                    reposition: Some(
                        crate::systems::point(frames[e].min.x - shift, frames[e].min.y as int),
                    ),
                },
            ],
        )
    } else if !extent_in_range(cols, frames) || at < 0 {
        None
    } else {
        let offset = saturated(
            swiped_offset(
                extent(cols, frames, at) - (frames[e].min.x - bounds.min.x),
                shift,
                extent(cols, frames, cols.len() as int),
                saturated(bounds.spec_width()),
                stage.padding.left as int,
                stage.padding.right as int,
                free_slide,
            ),
        );
        if pass_in_range(cols, frames, offset, stage) {
            Some(pass(cols, frames, h_pads, offset, stage))
        } else {
            None
        }
    }
}

/// Computes what a swipe on the window `entity` asks of the windows.
pub fn swipe_window(
    windows: &Windows,
    frames: &HashMap<Entity, IRect>,
    h_pads: &HashMap<Entity, i32>,
    display: &DisplayEntry,
    strip: &LayoutStrip,
    stage: &Stage,
    free_slide: bool,
    entity: Entity,
    delta: Ratio,
    unmanaged: bool,
) -> (r: Option<Vec<Target>>)
    requires
        strip.wf(),
        frames@ == frames_of(windows@, display.display.id(), windows@.len() as int),
        h_pads@ == h_pads_of(windows@, windows@.len() as int),
    ensures
        match r {
            Some(v) => swipe_targets(
                windows@,
                *display,
                strip@,
                *stage,
                free_slide,
                entity,
                delta,
                unmanaged,
            ) == Some(v@),
            None => swipe_targets(
                windows@,
                *display,
                strip@,
                *stage,
                free_slide,
                entity,
                delta,
                unmanaged,
            ).is_none(),
        },
{
    proof {
        lemma_frames_of_valid(windows@, display.display.id(), windows@.len() as int);
    }
    let bounds = display.display.bounds();
    let width = display.display.width();
    assert(-0x8000_0000 * 0x8000_0000 <= delta.0 * width <= 0x8000_0000 * 0x8000_0000)
        by (nonlinear_arith)
        requires
            -0x8000_0000 <= delta.0 <= 0x7fff_ffff,
            -0x8000_0000 <= width <= 0x7fff_ffff,
    ;
    let shift = saturate((delta.0 as i64 * width as i64) / 1_000_000);
    let frame = match frame_of(frames, entity) {
        Some(frame) => frame,
        None => {
            return None;
        },
    };
    if unmanaged {
        let mut out: Vec<Target> = Vec::new();
        out.push(
            Target {
                entity,
                resize: None,
                reposition: Some(
                    IVec2 { x: saturate(frame.min.x as i64 - shift as i64), y: frame.min.y },
                ),
            },
        );
        return Some(out);
    }
    if !strip.extent_fits(frames) {
        return None;
    }
    let found = strip.top_position(frames, entity);
    let at = match found {
        Some(at) => at,
        None => {
            return None;
        },
    };
    let whole = strip.total_width(frames);
    let start: i64 = at as i64 - (frame.min.x as i64 - bounds.min.x as i64);
    let moved: i64 = start + shift as i64;
    let offset: i64 = if free_slide {
        moved
    } else {
        let left: i64 = -(stage.padding.left as i64);
        let right: i64 = whole as i64 - (width as i64 - stage.padding.left as i64
            - stage.padding.right as i64) - stage.padding.left as i64;
        let high: i64 = if right > left {
            right
        } else {
            left
        };
        let low_held: i64 = if moved > left {
            moved
        } else {
            left
        };
        if low_held < high {
            low_held
        } else {
            high
        }
    };
    let offset = saturate(offset);
    let viewport = stage.viewport();
    let padded = saturate(offset as i64 + stage.padding.left as i64);
    if !strip.layout_fits(padded, &viewport, frames) {
        return None;
    }
    Some(position_layout_windows(offset, strip, frames, h_pads, stage))
}

/// The windows after the swipe on the window `e` was taken from it.
pub open spec fn unmarked_swipe(windows: Seq<WindowEntry>, e: Entity) -> Seq<WindowEntry> {
    with_window(windows, e, WindowEntry { swipe: None, ..entry_of(windows, e) })
}

/// The windows after the swipes that the windows of `seen` from the
/// `k`-th on carry were carried out, one after the other: the marker is
/// removed, and what the swipe asks is asked of the windows. Every swipe
/// sees the windows as `seen` has them.
pub open spec fn swipe_steps(
    windows: Seq<WindowEntry>,
    seen: Seq<WindowEntry>,
    display: DisplayEntry,
    cols: Seq<Seq<Entity>>,
    stage: Stage,
    free_slide: bool,
    k: int,
) -> Seq<WindowEntry>
    decreases seen.len() - k,
{
    if k < 0 || k >= seen.len() {
        windows
    } else if seen[k].swipe.is_some() {
        let e = seen[k].entity;
        let cleared = unmarked_swipe(windows, e);
        let next = match swipe_targets(
            seen,
            display,
            cols,
            stage,
            free_slide,
            e,
            seen[k].swipe.unwrap().0,
            seen[k].unmanaged.is_some(),
        ) {
            Some(targets) => with_targets(
                cleared,
                targets,
                display.display.id(),
                targets.len() as int,
            ),
            None => cleared,
        };
        swipe_steps(next, seen, display, cols, stage, free_slide, k + 1)
    } else {
        swipe_steps(windows, seen, display, cols, stage, free_slide, k + 1)
    }
}

impl WorldView {
    /// The model after the swipes that windows are marked with were
    /// carried out: as it is where there is no active display and
    /// workspace.
    pub open spec fn swiped_through(self) -> WorldView {
        match self.active() {
            None => self,
            Some(active) => WorldView {
                windows: swipe_steps(
                    self.windows,
                    self.windows,
                    self.displays[active.display as int],
                    self.workspaces[active.strip as int].cols,
                    self.stage(active.display as int),
                    self.config.free_slide(),
                    0,
                ),
                ..self
            },
        }
    }
}

impl World {
    /// Carries out the swipes that windows are marked with: the strip is
    /// scrolled by what the swipe travelled, and laid out anew.
    pub fn window_swiper(&mut self)
        requires
            old(self).wf(),
        ensures
            final(self).wf(),
            final(self)@ == old(self)@.swiped_through(),
    {
        let active = match self.active() {
            Some(active) => active,
            None => {
                return ;
            },
        };
        let display = self.displays[active.display];
        let stage = self.stage(active.display);
        let free_slide = self.config.free_slide();
        let seen = self.windows.snapshot();
        let frames = seen.moving_frames(display.display.id());
        let h_pads = seen.horizontal_paddings();
        let strip = &self.workspaces[active.strip].strip;
        let ghost cols = strip@;
        assert(cols == self@.workspaces[active.strip as int].cols);
        let mut k: usize = 0;
        while k < seen.all.len()
            invariant
                k <= seen.all.len(),
                strip.wf(),
                cols == strip@,
                self.wf(),
                self@ == (WorldView { windows: self.windows@, ..old(self)@ }),
                frames@ == frames_of(seen@, display.display.id(), seen@.len() as int),
                h_pads@ == h_pads_of(seen@, seen@.len() as int),
                swipe_steps(old(self).windows@, seen@, display, cols, stage, free_slide, 0)
                    == swipe_steps(
                    self.windows@,
                    seen@,
                    display,
                    cols,
                    stage,
                    free_slide,
                    k as int,
                ),
            decreases seen.all.len() - k,
        {
            let entry = seen.all[k];
            if let Some(marker) = entry.swipe {
                if let Some(now) = self.windows.get_managed(entry.entity) {
                    self.windows.put(WindowEntry { swipe: None, ..now });
                }
                let found = swipe_window(
                    &seen,
                    &frames,
                    &h_pads,
                    &display,
                    strip,
                    &stage,
                    free_slide,
                    entry.entity,
                    marker.0,
                    entry.unmanaged.is_some(),
                );
                if let Some(targets) = found {
                    self.windows.apply_targets(&targets, display.display.id());
                }
            }
            k += 1;
        }
    }
}

proof fn lemma_no_active_workspace(workspaces: Seq<WorkspaceView>, k: int)
    requires
        0 <= k <= workspaces.len(),
        forall|j: int| 0 <= j < k ==> workspaces[j].active.is_none(),
    ensures
        active_workspaces(workspaces, k) == 0,
    decreases k,
{
    if k > 0 {
        lemma_no_active_workspace(workspaces, k - 1);
    }
}

proof fn lemma_no_active_display(displays: Seq<DisplayEntry>, k: int)
    requires
        0 <= k <= displays.len(),
        forall|j: int| 0 <= j < k ==> displays[j].active.is_none(),
    ensures
        active_displays(displays, k) == 0,
    decreases k,
{
    if k > 0 {
        lemma_no_active_display(displays, k - 1);
    }
}

/// The active display and the active workspace are a display and a
/// workspace of the model, and carry the markers.
pub proof fn lemma_active_in_range(w: WorldView)
    requires
        w.active().is_some(),
        w.countable(),
    ensures
        w.active().unwrap().display < w.displays.len(),
        w.active().unwrap().strip < w.workspaces.len(),
        w.active().unwrap().display == next_display(w.displays, true, 0),
        w.active().unwrap().strip == next_active_workspace(w.workspaces, 0),
        w.displays[w.active().unwrap().display as int].active.is_some(),
        w.workspaces[w.active().unwrap().strip as int].active.is_some(),
{
    lemma_next_display(w.displays, true, 0);
    lemma_next_active_workspace(w.workspaces, 0);
    if next_display(w.displays, true, 0) >= w.displays.len() {
        lemma_no_active_display(w.displays, w.displays.len() as int);
    }
    if next_active_workspace(w.workspaces, 0) >= w.workspaces.len() {
        lemma_no_active_workspace(w.workspaces, w.workspaces.len() as int);
    }
}

/// The first `k` displays that are not the active one, in order.
pub open spec fn other_displays(displays: Seq<DisplayEntry>, k: int) -> Seq<Display>
    decreases k,
{
    if k <= 0 {
        Seq::empty()
    } else if displays[k - 1].active.is_none() {
        other_displays(displays, k - 1).push(displays[k - 1].display)
    } else {
        other_displays(displays, k - 1)
    }
}

impl Windows {
    /// The first window that the operating system knows as `window_id`,
    /// with its entity and the application that owns it.
    pub fn find_parent(&self, window_id: WinID) -> (r: Option<(Window, Entity, Entity)>)
        ensures
            r == (if window_index_by_id(self@, window_id) < self@.len() {
                let entry = self@[window_index_by_id(self@, window_id)];
                Some((entry.window, entry.entity, entry.parent))
            } else {
                None
            }),
    {
        match self.find(window_id) {
            Some(entry) => Some((entry.window, entry.entity, entry.parent)),
            None => None,
        }
    }

    /// The share of the display that the window `entity` took before it
    /// was made as wide as the display, where it was.
    pub fn full_width(&self, entity: Entity) -> (r: Option<Ratio>)
        ensures
            r == (if has_window(self@, entity) && entry_of(self@, entity).full_width.is_some() {
                Some(entry_of(self@, entity).full_width.unwrap().width_ratio)
            } else {
                None
            }),
    {
        match self.get_managed(entity) {
            Some(entry) => match entry.full_width {
                Some(marker) => Some(marker.width_ratio),
                None => None,
            },
            None => None,
        }
    }

    /// Every window with its entity, in the order of the table.
    pub fn iter(&self) -> (r: Vec<(Window, Entity)>)
        ensures
            r@.len() == self@.len(),
            forall|i: int|
                0 <= i < self@.len() ==> #[trigger] r@[i] == (self@[i].window, self@[i].entity),
    {
        let mut all: Vec<(Window, Entity)> = Vec::new();
        let mut i: usize = 0;
        while i < self.all.len()
            invariant
                i <= self.all.len(),
                all@.len() == i,
                forall|j: int| 0 <= j < i ==> #[trigger] all@[j] == (self@[j].window, self@[j].entity),
            decreases self.all.len() - i,
        {
            all.push((self.all[i].window, self.all[i].entity));
            i += 1;
        }
        all
    }
}

impl World {
    /// The window that was focused because the mouse moved over it, while
    /// the focus change is on its way.
    pub fn ffm_flag(&self) -> (r: Option<WinID>)
        ensures
            r == self@.focus_follows_mouse.0,
    {
        self.focus_follows_mouse.0
    }

    /// Notes the window that was focused because the mouse moved over it.
    pub fn set_ffm_flag(&mut self, flag: Option<WinID>)
        ensures
            final(self)@ == (WorldView {
                focus_follows_mouse: FocusFollowsMouse(flag),
                ..old(self)@
            }),
            old(self).wf() ==> final(self).wf(),
    {
        self.focus_follows_mouse = FocusFollowsMouse(flag);
    }

    /// Sets whether the next focus change is to leave the layout alone.
    pub fn set_skip_reshuffle(&mut self, to: bool)
        ensures
            final(self)@ == (WorldView { skip_reshuffle: SkipReshuffle(to), ..old(self)@ }),
            old(self).wf() ==> final(self).wf(),
    {
        self.skip_reshuffle = SkipReshuffle(to);
    }

    /// Whether the next focus change is to leave the layout alone.
    pub fn skip_reshuffle(&self) -> (r: bool)
        ensures
            r == self@.skip_reshuffle.0,
    {
        self.skip_reshuffle.0
    }

    /// Whether Mission Control is on screen.
    pub fn mission_control_active(&self) -> (r: bool)
        ensures
            r == self@.mission_control.0,
    {
        self.mission_control.0
    }

    /// The active display, where there is an active display and an
    /// active workspace.
    pub fn display(&self) -> (r: Option<Display>)
        ensures
            r == (match self@.active() {
                Some(active) => Some(self@.displays[active.display as int].display),
                None => None,
            }),
    {
        match self.active() {
            Some(active) => Some(self.displays[active.display].display),
            None => None,
        }
    }

    /// The dock of the active display, where it is known.
    pub fn dock(&self) -> (r: Option<DockPosition>)
        ensures
            r == (match self@.active() {
                Some(active) => self@.displays[active.display as int].dock,
                None => None,
            }),
    {
        match self.active() {
            Some(active) => self.displays[active.display].dock,
            None => None,
        }
    }

    /// The strip of the active workspace, where there is an active
    /// display and an active workspace.
    pub fn active_strip(&self) -> (r: Option<&LayoutStrip>)
        ensures
            match (r, self@.active()) {
                (Some(strip), Some(active)) => strip@ == self@.workspaces[active.strip as int].cols
                    && strip.spec_id() == self@.workspaces[active.strip as int].id,
                (None, None) => true,
                _ => false,
            },
    {
        match self.active() {
            Some(active) => {
                assert(self@.workspaces[active.strip as int] == self.workspaces@[active.strip as int]@);
                Some(&self.workspaces[active.strip].strip)
            },
            None => None,
        }
    }

    /// The displays that are not the active one, in order.
    pub fn other(&self) -> (r: Vec<Display>)
        ensures
            r@ == other_displays(self@.displays, self@.displays.len() as int),
    {
        let mut others: Vec<Display> = Vec::new();
        let mut i: usize = 0;
        while i < self.displays.len()
            invariant
                i <= self.displays.len(),
                others@ == other_displays(self.displays@, i as int),
            decreases self.displays.len() - i,
        {
            if self.displays[i].active.is_none() {
                others.push(self.displays[i].display);
            }
            i += 1;
        }
        others
    }
}

/// The first strip that holds a window does hold it, and no strip
/// before it does.
pub proof fn lemma_strip_holding(workspaces: Seq<WorkspaceView>, e: Entity, from: int)
    requires
        0 <= from <= workspaces.len(),
    ensures
        from <= strip_holding(workspaces, e, from) <= workspaces.len(),
        strip_holding(workspaces, e, from) < workspaces.len() ==> holds(
            workspaces[strip_holding(workspaces, e, from)].cols,
            e,
        ),
        forall|i: int|
            from <= i < strip_holding(workspaces, e, from) ==> !holds(
                (#[trigger] workspaces[i]).cols,
                e,
            ),
    decreases workspaces.len() - from,
{
    if from < workspaces.len() && !holds(workspaces[from].cols, e) {
        lemma_strip_holding(workspaces, e, from + 1);
    }
}

} // verus!
