//! What holds of the model whatever happens.

use vstd::prelude::*;
use crate::animation::display_index;
use crate::displays::{
    windows_found,
    display_entity_index, home_index, newcomers, orphaned_from, present_index, timeout_ticked,
    window_rehomed,
    workspace_entity_index, workspaces_ticked,
    ORPHANED_SPACES_TIMEOUT_MS,
};
use crate::ecs::{
    DisplayId, DockPosition, Event, FocusFollowsMouse, SendMessageTrigger, TimeoutReason,
    Timeout, Timer, WMEventTrigger, WinID,
};
use crate::geometry::{fits_i32, IRect, IVec2, Origin, Size};
use crate::commands::{
    area, leads_to_other_display, lies_beyond, most_visible, overlap_of, workspace_index,
    Command, Direction, MouseMove, Operation,
};
use crate::layout::{
    column_frames, column_width, extent, framed, layout, positions, column_of, column_x, columns_disjoint, columns_wf, flattened, holds, holds_no_more, holds_no_more_but,
    lemma_column_of, lemma_entered, lemma_moved_column, lemma_removed, lemma_stacked,
    lemma_unstacked, moved_column, removed, stacked, unstacked, Entity, WorkspaceId,
    WINDOW_HIDDEN_THRESHOLD,
};
use crate::manager::{Display, Window};
use crate::setup::{
    entered, found_windows, insertion_index, joined, pruned, refreshed, released,
    released_elsewhere, to_raise, WindowProperties,
};
use crate::triggers::focus_of;
use crate::world::{
    exposed_window, frames_of, lemma_strip_holding, reshuffle_steps, reshuffle_targets,
    strip_holding,
};
use crate::ratio::{saturated, Ratio};
use crate::systems::{
    anchor_offset, exposed_x, off_screen, on_display_x, padded_offset, placed, Stage,
    OFF_SCREEN_THRESHOLD,
};
use crate::triggers::{display_marked, workspace_marked, Effect};
use crate::ecs::{
    FullWidthMarker, Pid, RepositionMarker, ReshuffleAroundMarker, ResizeMarker, Unmanaged,
};
use crate::systems::{is_stacked, point, Target};
use crate::world::{
    active_displays, active_workspaces, entry_of, has_window, lemma_window_index,
    marked_for_reshuffle, repositioned, resized, window_index, with_target, with_targets,
    with_window, DisplayEntry, WindowEntry, WorkspaceView, WorldView,
};

verus! {

/// How many of the first `k` displays are known as `id`.
pub open spec fn displays_known_as(displays: Seq<DisplayEntry>, id: DisplayId, k: int) -> int
    decreases k,
{
    if k <= 0 {
        0
    } else {
        displays_known_as(displays, id, k - 1) + if displays[k - 1].display.id() == id {
            1int
        } else {
            0int
        }
    }
}

/// How many of the first `k` workspaces are known as `id`.
pub open spec fn workspaces_known_as(workspaces: Seq<WorkspaceView>, id: WorkspaceId, k: int)
    -> int
    decreases k,
{
    if k <= 0 {
        0
    } else {
        workspaces_known_as(workspaces, id, k - 1) + if workspaces[k - 1].id == id {
            1int
        } else {
            0int
        }
    }
}

proof fn lemma_displays_marked(displays: Seq<DisplayEntry>, id: DisplayId, k: int)
    requires
        0 <= k <= displays.len(),
    ensures
        active_displays(
            Seq::new(displays.len(), |i: int| display_marked(displays[i], id)),
            k,
        ) == displays_known_as(displays, id, k),
    decreases k,
{
    if k > 0 {
        lemma_displays_marked(displays, id, k - 1);
    }
}

proof fn lemma_workspaces_marked(workspaces: Seq<WorkspaceView>, id: WorkspaceId, k: int)
    requires
        0 <= k <= workspaces.len(),
    ensures
        active_workspaces(
            Seq::new(workspaces.len(), |i: int| workspace_marked(workspaces[i], id)),
            k,
        ) == workspaces_known_as(workspaces, id, k),
    decreases k,
{
    if k > 0 {
        lemma_workspaces_marked(workspaces, id, k - 1);
    }
}

/// Of the first `k` displays, one that is known as `id` counts.
proof fn lemma_display_known(displays: Seq<DisplayEntry>, id: DisplayId, j: int, k: int)
    requires
        0 <= k <= displays.len(),
    ensures
        displays_known_as(displays, id, k) >= 0,
        0 <= j < k && displays[j].display.id() == id ==> displays_known_as(displays, id, k) >= 1,
    decreases k,
{
    if k > 0 {
        lemma_display_known(displays, id, j, k - 1);
    }
}

proof fn lemma_display_index(displays: Seq<DisplayEntry>, id: DisplayId, from: int)
    requires
        0 <= from <= displays.len(),
    ensures
        from <= display_index(displays, id, from) <= displays.len(),
        display_index(displays, id, from) < displays.len() ==> displays[display_index(
            displays,
            id,
            from,
        )].display.id() == id,
    decreases displays.len() - from,
{
    if from < displays.len() && displays[from].display.id() != id {
        lemma_display_index(displays, id, from + 1);
    }
}

/// Of the first `k` workspaces, one that is known as `id` counts.
proof fn lemma_workspace_known(workspaces: Seq<WorkspaceView>, id: WorkspaceId, j: int, k: int)
    requires
        0 <= k <= workspaces.len(),
    ensures
        workspaces_known_as(workspaces, id, k) >= 0,
        0 <= j < k && workspaces[j].id == id ==> workspaces_known_as(workspaces, id, k) >= 1,
    decreases k,
{
    if k > 0 {
        lemma_workspace_known(workspaces, id, j, k - 1);
    }
}

proof fn lemma_workspace_index(workspaces: Seq<WorkspaceView>, id: WorkspaceId, from: int)
    requires
        0 <= from <= workspaces.len(),
    ensures
        from <= workspace_index(workspaces, id, from) <= workspaces.len(),
        workspace_index(workspaces, id, from) < workspaces.len() ==> workspaces[workspace_index(
            workspaces,
            id,
            from,
        )].id == id,
    decreases workspaces.len() - from,
{
    if from < workspaces.len() && workspaces[from].id != id {
        lemma_workspace_index(workspaces, id, from + 1);
    }
}

/// A change of the active display leaves exactly one display with the
/// marker of the active one, where exactly one carried it before and no
/// two displays are known by the name that the operating system gives:
/// the display of that name where it is known, and else the one that
/// carried it before.
pub proof fn lemma_display_changed_one_active(w: WorldView, id: Option<DisplayId>)
    requires
        active_displays(w.displays, w.displays.len() as int) == 1,
        id.is_some() ==> displays_known_as(w.displays, id.unwrap(), w.displays.len() as int) <= 1,
    ensures
        active_displays(
            w.display_changed(id).displays,
            w.display_changed(id).displays.len() as int,
        ) == 1,
{
    if id.is_some() {
        let at = display_index(w.displays, id.unwrap(), 0);
        lemma_display_index(w.displays, id.unwrap(), 0);
        if at < w.displays.len() {
            lemma_display_known(w.displays, id.unwrap(), at, w.displays.len() as int);
            lemma_displays_marked(w.displays, id.unwrap(), w.displays.len() as int);
        }
    }
}

/// A change of the active workspace, while exactly one display is
/// active, leaves exactly one workspace with the marker of the active
/// one, and so the model with an active display and workspace, where
/// the workspace that the operating system names is known, and known
/// once, or where exactly one workspace carried the marker before.
pub proof fn lemma_workspace_changed_one_active(w: WorldView, id: Option<WorkspaceId>)
    requires
        active_displays(w.displays, w.displays.len() as int) == 1,
        id.is_some() ==> workspaces_known_as(w.workspaces, id.unwrap(), w.workspaces.len() as int)
            <= 1,
        active_workspaces(w.workspaces, w.workspaces.len() as int) == 1 || (id.is_some()
            && workspace_index(w.workspaces, id.unwrap(), 0) < w.workspaces.len()),
    ensures
        active_workspaces(
            w.workspace_changed(id).workspaces,
            w.workspace_changed(id).workspaces.len() as int,
        ) == 1,
        w.workspace_changed(id).active().is_some(),
{
    if id.is_some() {
        let at = workspace_index(w.workspaces, id.unwrap(), 0);
        lemma_workspace_index(w.workspaces, id.unwrap(), 0);
        if at < w.workspaces.len() {
            lemma_workspace_known(w.workspaces, id.unwrap(), at, w.workspaces.len() as int);
            lemma_workspaces_marked(w.workspaces, id.unwrap(), w.workspaces.len() as int);
        }
    }
}

proof fn lemma_active_workspaces_same(a: Seq<WorkspaceView>, b: Seq<WorkspaceView>, k: int)
    requires
        a.len() == b.len(),
        0 <= k <= a.len(),
        forall|i: int| 0 <= i < a.len() ==> a[i].active == b[i].active,
    ensures
        active_workspaces(a, k) == active_workspaces(b, k),
    decreases k,
{
    if k > 0 {
        lemma_active_workspaces_same(a, b, k - 1);
    }
}

proof fn lemma_next_active_same(a: Seq<WorkspaceView>, b: Seq<WorkspaceView>, from: int)
    requires
        a.len() == b.len(),
        0 <= from <= a.len(),
        forall|i: int| 0 <= i < a.len() ==> a[i].active == b[i].active,
    ensures
        crate::world::next_active_workspace(a, from) == crate::world::next_active_workspace(
            b,
            from,
        ),
    decreases a.len() - from,
{
    if from < a.len() {
        lemma_next_active_same(a, b, from + 1);
    }
}

/// Which display and which workspace are active depends on the markers
/// alone: whatever leaves the displays as they are, and the workspaces
/// with their markers where they are, leaves the same display and
/// workspace active.
pub proof fn lemma_active_kept(before: WorldView, after: WorldView)
    requires
        after.displays == before.displays,
        after.workspaces.len() == before.workspaces.len(),
        forall|i: int|
            0 <= i < before.workspaces.len() ==> after.workspaces[i].active
                == before.workspaces[i].active,
    ensures
        after.active() == before.active(),
{
    lemma_active_workspaces_same(
        after.workspaces,
        before.workspaces,
        before.workspaces.len() as int,
    );
    lemma_next_active_same(after.workspaces, before.workspaces, 0);
}

/// An orphaned workspace that finds its display again keeps its columns,
/// with every window in its place. It stands where it stood among the
/// workspaces, or one place further up where the workspace whose place
/// it takes stood before it.
pub proof fn lemma_adoption_keeps_strip(w: WorldView, fresh: int, orphan: int, ids: Seq<WinID>)
    requires
        w.adoptable(fresh, orphan),
    ensures
        ({
            let after = w.orphan_adopted(fresh, orphan, ids);
            let at = if fresh < orphan {
                orphan - 1
            } else {
                orphan
            };
            &&& after.workspaces.len() == w.workspaces.len() - 1
            &&& after.workspaces[at].entity == w.workspaces[orphan].entity
            &&& after.workspaces[at].id == w.workspaces[orphan].id
            &&& after.workspaces[at].cols == w.workspaces[orphan].cols
            &&& after.workspaces[at].parent == w.workspaces[fresh].parent
            &&& after.workspaces[at].timeout.is_none()
            &&& forall|i: int|
                0 <= i < after.workspaces.len() && i != at ==> after.workspaces[i]
                    == w.workspaces[if i < fresh {
                    i
                } else {
                    i + 1
                }]
        }),
{
}

/// Bringing a window into view puts its left edge between the padded
/// edges of the display so that the window ends at or before the padded
/// right edge, and beside a dock at a side of the display; provided that
/// the window is no wider than the padded width of the display and than
/// what a dock at a side leaves of it, and that neither the padding nor
/// the dock's room is negative.
pub proof fn lemma_exposed_in_view(
    frame: IRect,
    display: IRect,
    dock: Option<DockPosition>,
    pad_right: int,
    pad_left: int,
)
    requires
        pad_left >= 0,
        pad_right >= 0,
        frame.min.x <= frame.max.x,
        frame.spec_width() <= display.spec_width() - pad_left - pad_right,
        dock matches Some(DockPosition::Left(offset)) ==> offset >= 0 && frame.spec_width()
            <= display.spec_width() - offset - pad_right,
        dock matches Some(DockPosition::Right(offset)) ==> offset >= 0 && frame.spec_width()
            <= display.spec_width() - offset - pad_left,
    ensures
        display.min.x + pad_left <= exposed_x(frame, display, dock, pad_right, pad_left)
            <= display.max.x - pad_right - frame.spec_width(),
        dock matches Some(DockPosition::Left(offset)) ==> display.min.x + offset <= exposed_x(
            frame,
            display,
            dock,
            pad_right,
            pad_left,
        ),
        dock matches Some(DockPosition::Right(offset)) ==> exposed_x(
            frame,
            display,
            dock,
            pad_right,
            pad_left,
        ) + frame.spec_width() <= display.max.x - offset,
{
}

/// Laid out at the scroll offset that a layout pass finds for a window,
/// the window's column starts where the window was brought into view,
/// seen from the padded left edge of the display; provided that this is
/// within the range in which columns are kept, and within `i32`.
pub proof fn lemma_anchor_keeps_exposed(
    position: int,
    x: int,
    stage: Stage,
    width: int,
)
    requires
        fits_i32(anchor_offset(position, x, stage.display.min.x as int)),
        fits_i32(anchor_offset(position, x, stage.display.min.x as int) + stage.padding.left),
        stage.spec_viewport().min.x + WINDOW_HIDDEN_THRESHOLD - width <= x - stage.display.min.x
            - stage.padding.left <= stage.spec_viewport().spec_width() - WINDOW_HIDDEN_THRESHOLD,
    ensures
        column_x(
            position,
            padded_offset(
                saturated(anchor_offset(position, x, stage.display.min.x as int)),
                stage,
            ),
            stage.spec_viewport(),
            width,
        ) == x - stage.display.min.x - stage.padding.left,
{
}

/// A window of which more than the threshold is in view is placed
/// horizontally where the layout has it, taken to the display's
/// coordinates and moved right by the left padding.
pub proof fn lemma_placed_in_view(frame: IRect, h_pad: int, stacked: bool, stage: Stage)
    requires
        frame.min.x <= frame.max.x,
        fits_i32(frame.min.x + stage.display.min.x),
        fits_i32(frame.max.x + stage.display.min.x),
        fits_i32(frame.min.x + stage.display.min.x + stage.padding.left),
        fits_i32(frame.max.x + stage.display.min.x + stage.padding.left),
        !off_screen(on_display_x(frame, stage), stage),
    ensures
        placed(frame, h_pad, stacked, stage).min.x == frame.min.x + stage.display.min.x
            + stage.padding.left,
        placed(frame, h_pad, stacked, stage).max.x == frame.max.x + stage.display.min.x
            + stage.padding.left,
{
}

/// No two windows have one entity.
pub open spec fn entities_unique(windows: Seq<WindowEntry>) -> bool {
    forall|i: int, j: int|
        0 <= i < windows.len() && 0 <= j < windows.len() && i != j ==> windows[i].entity
            != windows[j].entity
}

/// The windows `b` are the windows `a` but for what they are asked to
/// become: every window is the same window of the same entity, in or out
/// of the tiling as before; except that the window at `but` may differ in
/// whether it is in the tiling.
pub open spec fn same_windows(a: Seq<WindowEntry>, b: Seq<WindowEntry>, but: int) -> bool {
    &&& a.len() == b.len()
    &&& forall|i: int|
        0 <= i < a.len() ==> {
            &&& (#[trigger] a[i]).entity == b[i].entity
            &&& a[i].window == b[i].window
            &&& (i != but ==> a[i].unmanaged == b[i].unmanaged)
        }
}

proof fn lemma_with_window(windows: Seq<WindowEntry>, e: Entity, entry: WindowEntry)
    requires
        entry.entity == e,
        has_window(windows, e) ==> entry.window == entry_of(windows, e).window,
    ensures
        same_windows(windows, with_window(windows, e, entry), window_index(windows, e)),
        has_window(windows, e) ==> with_window(windows, e, entry)[window_index(windows, e)]
            == entry,
        forall|x: Entity|
            window_index(with_window(windows, e, entry), x) == window_index(windows, x),
{
    lemma_window_index(windows, e);
    let after = with_window(windows, e, entry);
    assert forall|x: Entity| window_index(after, x) == window_index(windows, x) by {
        lemma_same_entities_index(windows, after, x);
    }
}

proof fn lemma_same_entities_index(a: Seq<WindowEntry>, b: Seq<WindowEntry>, x: Entity)
    requires
        a.len() == b.len(),
        forall|i: int| 0 <= i < a.len() ==> a[i].entity == b[i].entity,
    ensures
        window_index(a, x) == window_index(b, x),
    decreases a.len(),
{
    if a.len() > 0 && a[0].entity != x {
        lemma_same_entities_index(a.drop_first(), b.drop_first(), x);
    }
}

proof fn lemma_markers_keep(windows: Seq<WindowEntry>, e: Entity)
    ensures
        same_windows(windows, marked_for_reshuffle(windows, e), -1),
        forall|o: crate::geometry::Origin, d: DisplayId|
            same_windows(windows, #[trigger] repositioned(windows, e, o, d), -1),
        forall|z: crate::geometry::Size, d: DisplayId|
            same_windows(windows, #[trigger] resized(windows, e, z, d), -1),
{
    lemma_window_index(windows, e);
}

proof fn lemma_target_keeps(windows: Seq<WindowEntry>, target: Target, d: DisplayId)
    ensures
        same_windows(windows, with_target(windows, target, d), -1),
{
    let sized = match target.resize {
        Some(size) => resized(windows, target.entity, size, d),
        None => windows,
    };
    lemma_markers_keep(windows, target.entity);
    lemma_markers_keep(sized, target.entity);
    lemma_same_trans(windows, sized, with_target(windows, target, d), -1);
}

proof fn lemma_same_trans(
    a: Seq<WindowEntry>,
    b: Seq<WindowEntry>,
    c: Seq<WindowEntry>,
    but: int,
)
    requires
        same_windows(a, b, but),
        same_windows(b, c, but),
    ensures
        same_windows(a, c, but),
{
    assert forall|i: int| 0 <= i < a.len() implies {
        &&& (#[trigger] a[i]).entity == c[i].entity
        &&& a[i].window == c[i].window
        &&& (i != but ==> a[i].unmanaged == c[i].unmanaged)
    } by {
        assert(a[i].entity == b[i].entity);
        assert(b[i].entity == c[i].entity);
    }
}

proof fn lemma_same_weaken(a: Seq<WindowEntry>, b: Seq<WindowEntry>, but: int)
    requires
        same_windows(a, b, -1),
    ensures
        same_windows(a, b, but),
{
}

/// What follows from a window leaving the tiling changes no window but in
/// what it is asked to become.
proof fn lemma_unmanaged_keeps(w: WorldView, e: Entity, marker: Unmanaged)
    ensures
        same_windows(w.windows, w.unmanaged(e, marker).windows, -1),
{
    match w.active() {
        Some(active) => {
            if has_window(w.windows, e) {
                let cols = w.workspaces[active.strip as int].cols;
                let display = w.displays[active.display as int].display;
                let frame = entry_of(w.windows, e).window.frame;
                match marker {
                    Unmanaged::Floating => {
                        let target = crate::systems::target_of(
                            e,
                            frame,
                            crate::floating::floated(frame, display.bounds()).rect(),
                        );
                        let asked = with_target(w.windows, target, display.id());
                        lemma_target_keeps(w.windows, target, display.id());
                        match crate::triggers::beside(cols, e) {
                            Some(other) => {
                                lemma_markers_keep(asked, other);
                                lemma_same_trans(
                                    w.windows,
                                    asked,
                                    marked_for_reshuffle(asked, other),
                                    -1,
                                );
                            },
                            None => {},
                        }
                    },
                    _ => {
                        match crate::triggers::heir(w.windows, cols, e) {
                            Some(other) => {
                                lemma_markers_keep(w.windows, other);
                            },
                            None => {},
                        }
                    },
                }
            }
        },
        None => {},
    }
}

/// Giving a window the marker that takes it out of the tiling changes
/// that of this window alone.
proof fn lemma_with_unmanaged(w: WorldView, e: Entity, marker: Unmanaged)
    ensures
        same_windows(
            w.windows,
            w.with_unmanaged(e, marker).windows,
            window_index(w.windows, e),
        ),
        has_window(w.windows, e) ==> w.with_unmanaged(e, marker).windows[window_index(
            w.windows,
            e,
        )].unmanaged == Some(marker),
{
    if has_window(w.windows, e) {
        lemma_window_index(w.windows, e);
        let entry = entry_of(w.windows, e);
        let put = WindowEntry { unmanaged: Some(marker), ..entry };
        let marked = WorldView { windows: with_window(w.windows, e, put), ..w };
        lemma_with_window(w.windows, e, put);
        if entry.unmanaged.is_none() {
            lemma_unmanaged_keeps(marked, e, marker);
            lemma_same_weaken(
                marked.windows,
                marked.unmanaged(e, marker).windows,
                window_index(w.windows, e),
            );
            lemma_same_trans(
                w.windows,
                marked.windows,
                marked.unmanaged(e, marker).windows,
                window_index(w.windows, e),
            );
            assert(marked.windows[window_index(w.windows, e)].unmanaged == Some(marker));
        }
    }
}

/// Taking from a window the marker that keeps it out of the tiling
/// changes that of this window alone.
proof fn lemma_without_unmanaged(w: WorldView, e: Entity)
    ensures
        same_windows(w.windows, w.without_unmanaged(e).windows, window_index(w.windows, e)),
        has_window(w.windows, e) ==> w.without_unmanaged(e).windows[window_index(
            w.windows,
            e,
        )].unmanaged.is_none(),
{
    if has_window(w.windows, e) && entry_of(w.windows, e).unmanaged.is_some() {
        lemma_window_index(w.windows, e);
        let entry = entry_of(w.windows, e);
        let put = WindowEntry { unmanaged: None, ..entry };
        let cleared = WorldView { windows: with_window(w.windows, e, put), ..w };
        lemma_with_window(w.windows, e, put);
        match cleared.active() {
            Some(active) => {
                lemma_markers_keep(cleared.windows, e);
                lemma_same_weaken(
                    cleared.windows,
                    cleared.managed(e).windows,
                    window_index(w.windows, e),
                );
                lemma_same_trans(
                    w.windows,
                    cleared.windows,
                    cleared.managed(e).windows,
                    window_index(w.windows, e),
                );
            },
            None => {},
        }
    }
}

/// What hiding does to the windows from the `k`-th on.
proof fn lemma_hidden_from(
    w: WorldView,
    seen: Seq<WindowEntry>,
    pid: Pid,
    told: Seq<crate::triggers::Effect>,
    k: int,
)
    requires
        0 <= k <= seen.len(),
        entities_unique(seen),
        seen.len() == w.windows.len(),
        forall|i: int| 0 <= i < seen.len() ==> seen[i].entity == w.windows[i].entity,
    ensures
        ({
            let after = w.hidden_from(seen, pid, told, k).0.windows;
            &&& after.len() == seen.len()
            &&& forall|i: int|
                0 <= i < seen.len() ==> {
                    &&& (#[trigger] after[i]).entity == seen[i].entity
                    &&& after[i].window == w.windows[i].window
                    &&& after[i].unmanaged == (if i >= k && seen[i].window.pid == pid
                        && seen[i].unmanaged.is_none() {
                        Some(Unmanaged::Hidden)
                    } else {
                        w.windows[i].unmanaged
                    })
                }
        }),
    decreases seen.len() - k,
{
    if k < seen.len() {
        if seen[k].window.pid == pid && seen[k].unmanaged.is_none() {
            let e = seen[k].entity;
            let next = w.with_unmanaged(e, Unmanaged::Hidden);
            let more = match w.with_unmanaged_event(e, Unmanaged::Hidden) {
                Some(effect) => told.push(effect),
                None => told,
            };
            lemma_with_unmanaged(w, e, Unmanaged::Hidden);
            lemma_unique_transfer(seen, w.windows);
            lemma_index_of_unique(w.windows, k);
            lemma_hidden_from(next, seen, pid, more, k + 1);
            let after = w.hidden_from(seen, pid, told, k).0.windows;
            assert forall|i: int| 0 <= i < seen.len() implies {
                &&& (#[trigger] after[i]).entity == seen[i].entity
                &&& after[i].window == w.windows[i].window
                &&& after[i].unmanaged == (if i >= k && seen[i].window.pid == pid
                    && seen[i].unmanaged.is_none() {
                    Some(Unmanaged::Hidden)
                } else {
                    w.windows[i].unmanaged
                })
            } by {
                assert(w.windows[i].entity == next.windows[i].entity);
            }
        } else {
            lemma_hidden_from(w, seen, pid, told, k + 1);
        }
    }
}

/// What showing does to the windows from the `k`-th on.
proof fn lemma_shown_from(w: WorldView, seen: Seq<WindowEntry>, pid: Pid, k: int)
    requires
        0 <= k <= seen.len(),
        entities_unique(seen),
        seen.len() == w.windows.len(),
        forall|i: int| 0 <= i < seen.len() ==> seen[i].entity == w.windows[i].entity,
    ensures
        ({
            let after = w.shown_from(seen, pid, k).windows;
            &&& after.len() == seen.len()
            &&& forall|i: int|
                0 <= i < seen.len() ==> {
                    &&& (#[trigger] after[i]).entity == seen[i].entity
                    &&& after[i].window == w.windows[i].window
                    &&& after[i].unmanaged == (if i >= k && seen[i].window.pid == pid
                        && seen[i].unmanaged == Some(Unmanaged::Hidden) && w.windows[i].unmanaged.is_some() {
                        None
                    } else {
                        w.windows[i].unmanaged
                    })
                }
        }),
    decreases seen.len() - k,
{
    if k < seen.len() {
        if seen[k].window.pid == pid && seen[k].unmanaged == Some(Unmanaged::Hidden) {
            let e = seen[k].entity;
            let next = w.without_unmanaged(e);
            lemma_without_unmanaged(w, e);
            lemma_unique_transfer(seen, w.windows);
            lemma_index_of_unique(w.windows, k);
            lemma_shown_from(next, seen, pid, k + 1);
            let after = w.shown_from(seen, pid, k).windows;
            assert forall|i: int| 0 <= i < seen.len() implies {
                &&& (#[trigger] after[i]).entity == seen[i].entity
                &&& after[i].window == w.windows[i].window
                &&& after[i].unmanaged == (if i >= k && seen[i].window.pid == pid
                    && seen[i].unmanaged == Some(Unmanaged::Hidden)
                    && w.windows[i].unmanaged.is_some() {
                    None
                } else {
                    w.windows[i].unmanaged
                })
            } by {
                assert(w.windows[i].entity == next.windows[i].entity);
            }
        } else {
            lemma_shown_from(w, seen, pid, k + 1);
        }
    }
}

proof fn lemma_unique_transfer(a: Seq<WindowEntry>, b: Seq<WindowEntry>)
    requires
        entities_unique(a),
        a.len() == b.len(),
        forall|i: int| 0 <= i < a.len() ==> a[i].entity == b[i].entity,
    ensures
        entities_unique(b),
{
    assert forall|i: int, j: int| 0 <= i < b.len() && 0 <= j < b.len() && i != j implies b[i].entity
        != b[j].entity by {
        assert(a[i].entity == b[i].entity);
        assert(a[j].entity == b[j].entity);
    }
}

proof fn lemma_index_of_unique(windows: Seq<WindowEntry>, k: int)
    requires
        0 <= k < windows.len(),
        forall|i: int, j: int|
            0 <= i < windows.len() && 0 <= j < windows.len() && i != j ==> windows[i].entity
                != windows[j].entity,
    ensures
        window_index(windows, windows[k].entity) == k,
{
    lemma_window_index(windows, windows[k].entity);
}

/// Hiding an application and showing it again, with nothing happening in
/// between, returns its windows to management: a window of the
/// application that was in the tiling, or hidden already, is hidden in
/// between and managed afterwards, and a window that floated or was
/// minimized stays so throughout, as do the windows of other
/// applications. No window is forgotten or changed on the way.
pub proof fn lemma_hidden_then_visible(w: WorldView, pid: Pid)
    requires
        entities_unique(w.windows),
    ensures
        ({
            let hidden = w.application_hidden(pid).0;
            let shown = hidden.application_visible(pid);
            &&& hidden.windows.len() == w.windows.len()
            &&& shown.windows.len() == w.windows.len()
            &&& forall|i: int|
                0 <= i < w.windows.len() ==> {
                    &&& (#[trigger] shown.windows[i]).entity == w.windows[i].entity
                    &&& shown.windows[i].window == w.windows[i].window
                    &&& shown.windows[i].unmanaged == (if w.windows[i].window.pid == pid
                        && w.windows[i].unmanaged == Some(Unmanaged::Hidden) {
                        None
                    } else {
                        w.windows[i].unmanaged
                    })
                    &&& hidden.windows[i].unmanaged == (if w.windows[i].window.pid == pid
                        && w.windows[i].unmanaged.is_none() {
                        Some(Unmanaged::Hidden)
                    } else {
                        w.windows[i].unmanaged
                    })
                }
        }),
{
    let hidden = w.application_hidden(pid).0;
    lemma_hidden_from(w, w.windows, pid, Seq::empty(), 0);
    assert forall|i: int, j: int|
        0 <= i < hidden.windows.len() && 0 <= j < hidden.windows.len() && i
            != j implies hidden.windows[i].entity != hidden.windows[j].entity by {
        assert(hidden.windows[i].entity == w.windows[i].entity);
        assert(hidden.windows[j].entity == w.windows[j].entity);
    }
    lemma_shown_from(hidden, hidden.windows, pid, 0);
    let shown = hidden.application_visible(pid);
    assert forall|i: int| 0 <= i < w.windows.len() implies {
        &&& (#[trigger] shown.windows[i]).entity == w.windows[i].entity
        &&& shown.windows[i].window == w.windows[i].window
        &&& shown.windows[i].unmanaged == (if w.windows[i].window.pid == pid
            && w.windows[i].unmanaged == Some(Unmanaged::Hidden) {
            None
        } else {
            w.windows[i].unmanaged
        })
    } by {
        assert(hidden.windows[i].entity == w.windows[i].entity);
        assert(hidden.windows[i].window == w.windows[i].window);
    }
}

/// No window is held twice: not in two columns of a strip, and not in
/// two strips; and no strip has an empty column or a column that lists a
/// window twice.
pub open spec fn held_once(workspaces: Seq<WorkspaceView>) -> bool {
    &&& forall|i: int|
        0 <= i < workspaces.len() ==> columns_wf((#[trigger] workspaces[i]).cols)
            && columns_disjoint(workspaces[i].cols)
    &&& forall|i: int, j: int, e: Entity|
        0 <= i < workspaces.len() && 0 <= j < workspaces.len() && i != j && #[trigger] holds(
            workspaces[i].cols,
            e,
        ) ==> !#[trigger] holds(workspaces[j].cols, e)
}

/// Where a strip changes so that it holds no window that it did not hold
/// before, and none twice, no window is held twice afterwards if none
/// was before.
pub proof fn lemma_cols_changed(w: WorldView, strip: int, cols: Seq<Seq<Entity>>)
    requires
        held_once(w.workspaces),
        0 <= strip < w.workspaces.len(),
        columns_wf(cols),
        columns_disjoint(cols),
        holds_no_more(cols, w.workspaces[strip].cols),
    ensures
        held_once(w.with_cols(strip, cols).workspaces),
{
    let after = w.with_cols(strip, cols).workspaces;
    assert forall|i: int| 0 <= i < after.len() implies columns_wf((#[trigger] after[i]).cols)
        && columns_disjoint(after[i].cols) by {
        if i != strip {
            assert(after[i] == w.workspaces[i]);
        }
    }
    assert forall|i: int, j: int, e: Entity|
        0 <= i < after.len() && 0 <= j < after.len() && i != j && #[trigger] holds(
            after[i].cols,
            e,
        ) implies !#[trigger] holds(after[j].cols, e) by {
        if holds(after[j].cols, e) {
            assert(holds(w.workspaces[i].cols, e));
            assert(holds(w.workspaces[j].cols, e));
        }
    }
}

/// Where a window that no strip holds enters a strip, no window is held
/// twice afterwards if none was before.
pub proof fn lemma_cols_entered(w: WorldView, strip: int, cols: Seq<Seq<Entity>>, e: Entity)
    requires
        held_once(w.workspaces),
        0 <= strip < w.workspaces.len(),
        !w.held(e),
        columns_wf(cols),
        columns_disjoint(cols),
        holds_no_more_but(cols, w.workspaces[strip].cols, e),
    ensures
        held_once(w.with_cols(strip, cols).workspaces),
{
    let after = w.with_cols(strip, cols).workspaces;
    lemma_strip_holding(w.workspaces, e, 0);
    assert forall|i: int| 0 <= i < after.len() implies columns_wf((#[trigger] after[i]).cols)
        && columns_disjoint(after[i].cols) by {
        if i != strip {
            assert(after[i] == w.workspaces[i]);
        }
    }
    assert forall|i: int, j: int, x: Entity|
        0 <= i < after.len() && 0 <= j < after.len() && i != j && #[trigger] holds(
            after[i].cols,
            x,
        ) implies !#[trigger] holds(after[j].cols, x) by {
        if holds(after[j].cols, x) {
            assert(!holds(w.workspaces[i].cols, e));
            assert(!holds(w.workspaces[j].cols, e));
            assert(holds(w.workspaces[i].cols, x));
            assert(holds(w.workspaces[j].cols, x));
        }
    }
}

/// A window that leaves the tiling leaves no window held twice.
pub proof fn lemma_unmanaged_held_once(w: WorldView, e: Entity, marker: Unmanaged)
    requires
        held_once(w.workspaces),
        w.countable(),
    ensures
        held_once(w.unmanaged(e, marker).workspaces),
        held_once(w.with_unmanaged(e, marker).workspaces),
{
    match w.active() {
        Some(active) => {
            crate::world::lemma_active_in_range(w);
            let strip = active.strip as int;
            let cols = w.workspaces[strip].cols;
            lemma_removed(cols, e);
            let focus_given = w.focus_given_away(e, strip);
            let floating = WorldView { windows: w.unmanaged(e, marker).windows, ..w };
            lemma_cols_changed(w, strip, removed(cols, e));
            if has_window(w.windows, e) {
                let put = WindowEntry { unmanaged: Some(marker), ..entry_of(w.windows, e) };
                let marked = WorldView { windows: with_window(w.windows, e, put), ..w };
                lemma_cols_changed(marked, strip, removed(cols, e));
            }
        },
        None => {},
    }
}

/// A window that returns to the tiling leaves no window held twice.
pub proof fn lemma_managed_held_once(w: WorldView, e: Entity)
    requires
        held_once(w.workspaces),
        w.countable(),
    ensures
        held_once(w.managed(e).workspaces),
        held_once(w.without_unmanaged(e).workspaces),
{
    match w.active() {
        Some(active) => {
            crate::world::lemma_active_in_range(w);
            let strip = active.strip as int;
            let cols = w.workspaces[strip].cols;
            if !w.held(e) {
                lemma_strip_holding(w.workspaces, e, 0);
                lemma_entered(cols, cols.len() as int, e);
                assert(cols.insert(cols.len() as int, seq![e]) =~= cols.push(seq![e]));
                lemma_cols_entered(w, strip, cols.push(seq![e]), e);
                if has_window(w.windows, e) {
                    let put = WindowEntry { unmanaged: None, ..entry_of(w.windows, e) };
                    let cleared = WorldView { windows: with_window(w.windows, e, put), ..w };
                    lemma_cols_entered(cleared, strip, cols.push(seq![e]), e);
                }
            }
        },
        None => {},
    }
}

/// A window that is taken out of the strip that holds it leaves no window
/// held twice.
pub proof fn lemma_window_removed_held_once(w: WorldView, e: Entity)
    requires
        held_once(w.workspaces),
        w.countable(),
    ensures
        held_once(w.window_removed(e).workspaces),
{
    lemma_strip_holding(w.workspaces, e, 0);
    let strip = strip_holding(w.workspaces, e, 0);
    if strip < w.workspaces.len() {
        lemma_removed(w.workspaces[strip].cols, e);
        lemma_cols_changed(w, strip, removed(w.workspaces[strip].cols, e));
    }
}

/// Stacking and unstacking leave no window held twice.
pub proof fn lemma_stacked_held_once(w: WorldView, stack: bool)
    requires
        held_once(w.workspaces),
        w.countable(),
    ensures
        held_once(w.stacked(stack).workspaces),
{
    match (w.active(), focus_of(w.windows)) {
        (Some(active), Some(focus)) => {
            crate::world::lemma_active_in_range(w);
            let strip = active.strip as int;
            let cols = w.workspaces[strip].cols;
            lemma_stacked(cols, focus);
            lemma_unstacked(cols, focus);
            lemma_cols_changed(w, strip, stacked(cols, focus));
            lemma_cols_changed(w, strip, unstacked(cols, focus));
        },
        _ => {},
    }
}

/// Exchanging the focused window with another leaves no window held
/// twice.
pub proof fn lemma_swapped_held_once(w: WorldView, direction: Direction)
    requires
        held_once(w.workspaces),
        w.countable(),
    ensures
        held_once(w.swapped(direction).workspaces),
{
    match (w.active(), focus_of(w.windows)) {
        (Some(active), Some(focus)) => {
            crate::world::lemma_active_in_range(w);
            let strip = active.strip as int;
            let cols = w.workspaces[strip].cols;
            let other = crate::commands::window_in_direction(cols, direction, focus);
            if other.is_some() && holds(cols, other.unwrap()) && holds(cols, focus) {
                lemma_column_of(cols, focus);
                lemma_column_of(cols, other.unwrap());
                let from = column_of(cols, focus);
                let to = column_of(cols, other.unwrap());
                lemma_moved_column(cols, from, to);
                lemma_cols_changed(w, strip, moved_column(cols, from, to));
            }
        },
        _ => {},
    }
}

/// Taking the focused window to the other display leaves no window held
/// twice.
pub proof fn lemma_next_display_held_once(w: WorldView)
    requires
        held_once(w.workspaces),
        w.countable(),
    ensures
        held_once(w.moved_to_next_display().workspaces),
{
    match (w.active(), focus_of(w.windows)) {
        (Some(active), Some(focus)) => {
            crate::world::lemma_active_in_range(w);
            let strip = active.strip as int;
            let cols = w.workspaces[strip].cols;
            lemma_removed(cols, focus);
            lemma_cols_changed(w, strip, removed(cols, focus));
        },
        _ => {},
    }
}

/// A window that enters the store leaves no window held twice.
pub proof fn lemma_spawned_held_once(
    w: WorldView,
    window: Window,
    parent: Entity,
    p: WindowProperties,
)
    requires
        held_once(w.workspaces),
        w.countable(),
    ensures
        held_once(w.window_spawned(window, parent, p).workspaces),
{
    if w.admits(window) {
        crate::world::lemma_active_in_range(w);
        let e = w.next_entity;
        let active = w.active().unwrap();
        let strip = active.strip as int;
        let cols = w.workspaces[strip].cols;
        let known = WorldView {
            windows: w.windows.push(crate::setup::fresh_entry(e, parent, window)),
            stray_focus: crate::setup::stray_kept(
                w.stray_focus,
                window.id,
                w.stray_focus.len() as int,
            ),
            next_entity: (e + 1) as u64,
            ..w
        };
        if p.floating {
            lemma_unmanaged_held_once(known, e, Unmanaged::Floating);
        } else if !w.held(e) {
            lemma_strip_holding(w.workspaces, e, 0);
            let focus = focus_of(w.windows);
            let at = insertion_index(cols, focus, p.index);
            let place = match at {
                Some(index) if index < cols.len() => index,
                _ => cols.len() as int,
            };
            if at.is_some() && at.unwrap() < cols.len() {
                if p.index.is_none() {
                    lemma_column_of(cols, focus.unwrap());
                }
            } else {
                assert(cols.insert(cols.len() as int, seq![e]) =~= cols.push(seq![e]));
            }
            lemma_entered(cols, place, e);
            lemma_cols_entered(known, strip, entered(cols, at, e), e);
        }
    }
}

/// Making the focused window as wide as the display, and undoing that,
/// leaves no window held twice.
pub proof fn lemma_full_width_held_once(w: WorldView)
    requires
        held_once(w.workspaces),
        w.countable(),
    ensures
        held_once(w.full_width_toggled().workspaces),
{
    match (w.active(), focus_of(w.windows)) {
        (Some(active), Some(focus)) => {
            crate::world::lemma_active_in_range(w);
            let strip = active.strip as int;
            let cols = w.workspaces[strip].cols;
            lemma_stacked(cols, focus);
            lemma_unstacked(cols, focus);
            if has_window(w.windows, focus) {
                let after = w.full_width_toggled();
                let shown = WorldView { windows: after.windows, ..w };
                lemma_cols_changed(shown, strip, stacked(cols, focus));
                lemma_cols_changed(shown, strip, unstacked(cols, focus));
                lemma_cols_changed(shown, strip, cols);
            }
        },
        _ => {},
    }
}

/// A window that is destroyed leaves no window held twice.
pub proof fn lemma_destroyed_held_once(w: WorldView, id: WinID)
    requires
        held_once(w.workspaces),
        w.countable(),
    ensures
        held_once(w.window_destroyed(id).workspaces),
{
    let at = crate::world::window_index_by_id(w.windows, id);
    match w.active() {
        Some(active) => {
            if at < w.windows.len() {
                let e = w.windows[at].entity;
                let given = w.focus_given_away(e, active.strip as int);
                lemma_managed_held_once(given, e);
                let managed = given.without_unmanaged(e);
                lemma_without_unmanaged_size(given, e);
                lemma_countable_kept(given, managed);
                lemma_window_removed_held_once(managed, e);
            }
        },
        None => {},
    }
}

/// Returning a window to the tiling adds no workspace and takes none
/// away.
proof fn lemma_without_unmanaged_size(w: WorldView, e: Entity)
    requires
        w.countable(),
    ensures
        w.without_unmanaged(e).displays == w.displays,
        w.without_unmanaged(e).workspaces.len() == w.workspaces.len(),
{
    if has_window(w.windows, e) && entry_of(w.windows, e).unmanaged.is_some() {
        let put = WindowEntry { unmanaged: None, ..entry_of(w.windows, e) };
        let cleared = WorldView { windows: with_window(w.windows, e, put), ..w };
        if cleared.active().is_some() {
            crate::world::lemma_active_in_range(cleared);
        }
    }
}

proof fn lemma_countable_kept(before: WorldView, after: WorldView)
    requires
        before.countable(),
        after.displays == before.displays,
        after.workspaces.len() == before.workspaces.len(),
    ensures
        after.countable(),
{
}

/// An orphaned workspace that finds its display again leaves no window
/// held twice.
pub proof fn lemma_adopted_held_once(w: WorldView, fresh: int, orphan: int, ids: Seq<WinID>)
    requires
        held_once(w.workspaces),
    ensures
        held_once(w.orphan_adopted(fresh, orphan, ids).workspaces),
{
    if w.adoptable(fresh, orphan) {
        lemma_adoption_keeps_strip(w, fresh, orphan, ids);
        let after = w.orphan_adopted(fresh, orphan, ids).workspaces;
        assert forall|i: int| 0 <= i < after.len() implies (#[trigger] after[i]).cols
            == w.workspaces[if i < fresh {
            i
        } else {
            i + 1
        }].cols by {}
        assert forall|i: int| 0 <= i < after.len() implies columns_wf((#[trigger] after[i]).cols)
            && columns_disjoint(after[i].cols) by {
            let from = if i < fresh {
                i
            } else {
                i + 1
            };
            assert(after[i].cols == w.workspaces[from].cols);
        }
        assert forall|i: int, j: int, e: Entity|
            0 <= i < after.len() && 0 <= j < after.len() && i != j && #[trigger] holds(
                after[i].cols,
                e,
            ) implies !#[trigger] holds(after[j].cols, e) by {
            let fi = if i < fresh {
                i
            } else {
                i + 1
            };
            let fj = if j < fresh {
                j
            } else {
                j + 1
            };
            assert(after[i].cols == w.workspaces[fi].cols);
            assert(after[j].cols == w.workspaces[fj].cols);
            if holds(after[j].cols, e) {
                assert(holds(w.workspaces[fi].cols, e));
                assert(holds(w.workspaces[fj].cols, e));
            }
        }
    }
}

/// Whatever command is carried out, no window is held twice afterwards.
pub proof fn lemma_commanded_held_once(
    w: WorldView,
    command: Command,
    other_space: Option<WorkspaceId>,
)
    requires
        held_once(w.workspaces),
        w.countable(),
    ensures
        held_once(w.commanded(command, other_space).0.workspaces),
{
    match command {
        Command::Window(Operation::Swap(direction)) => lemma_swapped_held_once(w, direction),
        Command::Window(Operation::ToNextDisplay) => lemma_next_display_held_once(w),
        Command::Window(Operation::FullWidth) => lemma_full_width_held_once(w),
        Command::Window(Operation::Stack(stack)) => lemma_stacked_held_once(w, stack),
        Command::Window(Operation::Manage) => {
            match focus_of(w.windows) {
                Some(focus) => {
                    lemma_managed_held_once(w, focus);
                    lemma_unmanaged_held_once(w, focus, Unmanaged::Floating);
                },
                None => {},
            }
        },
        _ => {},
    }
}

/// Taking a window out of the tiling adds no workspace and takes none
/// away.
proof fn lemma_with_unmanaged_size(w: WorldView, e: Entity, marker: Unmanaged)
    requires
        w.countable(),
    ensures
        w.with_unmanaged(e, marker).displays == w.displays,
        w.with_unmanaged(e, marker).workspaces.len() == w.workspaces.len(),
{
    if has_window(w.windows, e) && entry_of(w.windows, e).unmanaged.is_none() {
        let put = WindowEntry { unmanaged: Some(marker), ..entry_of(w.windows, e) };
        let marked = WorldView { windows: with_window(w.windows, e, put), ..w };
        if marked.active().is_some() {
            crate::world::lemma_active_in_range(marked);
        }
    }
}

proof fn lemma_hidden_from_held_once(
    w: WorldView,
    seen: Seq<WindowEntry>,
    pid: Pid,
    told: Seq<Effect>,
    k: int,
)
    requires
        held_once(w.workspaces),
        w.countable(),
    ensures
        held_once(w.hidden_from(seen, pid, told, k).0.workspaces),
    decreases seen.len() - k,
{
    if 0 <= k < seen.len() {
        if seen[k].window.pid == pid && seen[k].unmanaged.is_none() {
            let next = w.with_unmanaged(seen[k].entity, Unmanaged::Hidden);
            let more = match w.with_unmanaged_event(seen[k].entity, Unmanaged::Hidden) {
                Some(effect) => told.push(effect),
                None => told,
            };
            lemma_unmanaged_held_once(w, seen[k].entity, Unmanaged::Hidden);
            lemma_with_unmanaged_size(w, seen[k].entity, Unmanaged::Hidden);
            lemma_countable_kept(w, next);
            lemma_hidden_from_held_once(next, seen, pid, more, k + 1);
        } else {
            lemma_hidden_from_held_once(w, seen, pid, told, k + 1);
        }
    }
}

proof fn lemma_shown_from_held_once(w: WorldView, seen: Seq<WindowEntry>, pid: Pid, k: int)
    requires
        held_once(w.workspaces),
        w.countable(),
    ensures
        held_once(w.shown_from(seen, pid, k).workspaces),
    decreases seen.len() - k,
{
    if 0 <= k < seen.len() {
        if seen[k].window.pid == pid && seen[k].unmanaged == Some(Unmanaged::Hidden) {
            let next = w.without_unmanaged(seen[k].entity);
            lemma_managed_held_once(w, seen[k].entity);
            lemma_without_unmanaged_size(w, seen[k].entity);
            lemma_countable_kept(w, next);
            lemma_shown_from_held_once(next, seen, pid, k + 1);
        } else {
            lemma_shown_from_held_once(w, seen, pid, k + 1);
        }
    }
}

/// Hiding an application and showing it again leave no window held
/// twice.
pub proof fn lemma_application_held_once(w: WorldView, pid: Pid)
    requires
        held_once(w.workspaces),
        w.countable(),
    ensures
        held_once(w.application_hidden(pid).0.workspaces),
        held_once(w.application_visible(pid).workspaces),
{
    lemma_hidden_from_held_once(w, w.windows, pid, Seq::empty(), 0);
    lemma_shown_from_held_once(w, w.windows, pid, 0);
}

/// Minimizing a window and taking it out of the dock again leave no
/// window held twice.
pub proof fn lemma_minimized_held_once(w: WorldView, id: WinID)
    requires
        held_once(w.workspaces),
        w.countable(),
    ensures
        held_once(w.window_minimized(id).workspaces),
        held_once(w.window_deminimized(id).workspaces),
{
    let at = crate::world::window_index_by_id(w.windows, id);
    if at < w.windows.len() {
        lemma_unmanaged_held_once(w, w.windows[at].entity, Unmanaged::Minimized);
        lemma_managed_held_once(w, w.windows[at].entity);
    }
}

/// A change of the active workspace leaves no window held twice.
pub proof fn lemma_workspace_changed_held_once(w: WorldView, id: Option<WorkspaceId>)
    requires
        held_once(w.workspaces),
    ensures
        held_once(w.workspace_changed(id).workspaces),
{
    let after = w.workspace_changed(id).workspaces;
    assert forall|i: int| 0 <= i < after.len() implies (#[trigger] after[i]).cols
        == w.workspaces[i].cols by {}
    assert forall|i: int, j: int, e: Entity|
        0 <= i < after.len() && 0 <= j < after.len() && i != j && #[trigger] holds(
            after[i].cols,
            e,
        ) implies !#[trigger] holds(after[j].cols, e) by {
        assert(after[i].cols == w.workspaces[i].cols);
        assert(after[j].cols == w.workspaces[j].cols);
        if holds(after[j].cols, e) {
            assert(holds(w.workspaces[i].cols, e));
            assert(holds(w.workspaces[j].cols, e));
        }
    }
}

/// Dropping a workspace leaves no window held twice.
proof fn lemma_held_once_without(workspaces: Seq<WorkspaceView>, at: int)
    requires
        held_once(workspaces),
        0 <= at < workspaces.len(),
    ensures
        held_once(workspaces.remove(at)),
{
    let after = workspaces.remove(at);
    assert forall|i: int| 0 <= i < after.len() implies columns_wf((#[trigger] after[i]).cols)
        && columns_disjoint(after[i].cols) by {
        let from = if i < at {
            i
        } else {
            i + 1
        };
        assert(after[i] == workspaces[from]);
    }
    assert forall|i: int, j: int, e: Entity|
        0 <= i < after.len() && 0 <= j < after.len() && i != j && #[trigger] holds(
            after[i].cols,
            e,
        ) implies !#[trigger] holds(after[j].cols, e) by {
        let fi = if i < at {
            i
        } else {
            i + 1
        };
        let fj = if j < at {
            j
        } else {
            j + 1
        };
        assert(after[i] == workspaces[fi]);
        assert(after[j] == workspaces[fj]);
        if holds(after[j].cols, e) {
            assert(holds(workspaces[fi].cols, e));
            assert(holds(workspaces[fj].cols, e));
        }
    }
}

/// A workspace that changes but for its columns leaves no window held
/// twice.
proof fn lemma_held_once_same_cols(workspaces: Seq<WorkspaceView>, at: int, entry: WorkspaceView)
    requires
        held_once(workspaces),
        0 <= at < workspaces.len(),
        entry.cols == workspaces[at].cols,
    ensures
        held_once(workspaces.update(at, entry)),
{
    let after = workspaces.update(at, entry);
    assert forall|i: int| 0 <= i < after.len() implies (#[trigger] after[i]).cols
        == workspaces[i].cols by {}
    assert forall|i: int, j: int, e: Entity|
        0 <= i < after.len() && 0 <= j < after.len() && i != j && #[trigger] holds(
            after[i].cols,
            e,
        ) implies !#[trigger] holds(after[j].cols, e) by {
        assert(after[i].cols == workspaces[i].cols);
        assert(after[j].cols == workspaces[j].cols);
        if holds(after[j].cols, e) {
            assert(holds(workspaces[i].cols, e));
            assert(holds(workspaces[j].cols, e));
        }
    }
}

proof fn lemma_workspaces_ticked_held_once(workspaces: Seq<WorkspaceView>, delta: u64, i: int)
    requires
        held_once(workspaces),
    ensures
        held_once(workspaces_ticked(workspaces, delta, i)),
    decreases workspaces.len() - i,
{
    if 0 <= i < workspaces.len() {
        match workspaces[i].timeout {
            Some(timeout) => {
                if timeout.timer.is_finished() {
                    lemma_held_once_without(workspaces, i);
                    lemma_workspaces_ticked_held_once(workspaces.remove(i), delta, i);
                } else {
                    let entry = WorkspaceView {
                        timeout: Some(timeout_ticked(timeout, delta)),
                        ..workspaces[i]
                    };
                    lemma_held_once_same_cols(workspaces, i, entry);
                    lemma_workspaces_ticked_held_once(workspaces.update(i, entry), delta, i + 1);
                }
            },
            None => lemma_workspaces_ticked_held_once(workspaces, delta, i + 1),
        }
    }
}

proof fn lemma_orphaned_from_held_once(workspaces: Seq<WorkspaceView>, parent: Entity, i: int)
    requires
        held_once(workspaces),
    ensures
        held_once(orphaned_from(workspaces, parent, i)),
    decreases workspaces.len() - i,
{
    if 0 <= i < workspaces.len() {
        if workspaces[i].parent != Some(parent) {
            lemma_orphaned_from_held_once(workspaces, parent, i + 1);
        } else if workspaces[i].cols.len() == 0 {
            lemma_held_once_without(workspaces, i);
            lemma_orphaned_from_held_once(workspaces.remove(i), parent, i);
        } else {
            let entry = WorkspaceView {
                parent: None,
                timeout: Some(
                    Timeout {
                        timer: Timer { duration: ORPHANED_SPACES_TIMEOUT_MS, elapsed: 0 },
                        message: Some(TimeoutReason::OrphanedStrip(workspaces[i].id)),
                    },
                ),
                ..workspaces[i]
            };
            lemma_held_once_same_cols(workspaces, i, entry);
            lemma_orphaned_from_held_once(workspaces.update(i, entry), parent, i + 1);
        }
    }
}

/// The passing of time and the loss of a display leave no window held
/// twice.
pub proof fn lemma_ticked_held_once(w: WorldView, delta: u64, id: DisplayId)
    requires
        held_once(w.workspaces),
    ensures
        held_once(w.ticked(delta).workspaces),
        held_once(w.display_removed(id).workspaces),
{
    lemma_workspaces_ticked_held_once(w.workspaces, delta, 0);
    let at = crate::animation::display_index(w.displays, id, 0);
    if at < w.displays.len() {
        lemma_orphaned_from_held_once(w.workspaces, w.displays[at].entity, 0);
    }
}

/// What a workspace holds after a window moved to the workspace known as
/// `id`: what it held before, and the window only on the first workspace
/// on a display that is known as `id`.
proof fn lemma_window_rehomed_at(
    workspaces: Seq<WorkspaceView>,
    e: Entity,
    id: WorkspaceId,
    i: int,
)
    requires
        held_once(workspaces),
        0 <= i < workspaces.len(),
    ensures
        columns_wf(window_rehomed(workspaces, e, id)[i].cols),
        columns_disjoint(window_rehomed(workspaces, e, id)[i].cols),
        forall|x: Entity| #[trigger]
            holds(window_rehomed(workspaces, e, id)[i].cols, x) ==> if x == e {
                i == home_index(workspaces, id, 0)
            } else {
                holds(workspaces[i].cols, x)
            },
        i == home_index(workspaces, id, 0) ==> holds(window_rehomed(workspaces, e, id)[i].cols, e),
{
    let cols = workspaces[i].cols;
    let left = removed(cols, e);
    let after = window_rehomed(workspaces, e, id)[i].cols;
    lemma_removed(cols, e);
    if i == home_index(workspaces, id, 0) {
        lemma_entered(left, left.len() as int, e);
        assert(left.insert(left.len() as int, seq![e]) =~= left.push(seq![e]));
        assert(after == left.push(seq![e]));
        assert(after[left.len() as int] == seq![e]);
        assert(seq![e][0] == e);
        assert(after[left.len() as int].contains(e));
        assert forall|x: Entity| #[trigger] holds(after, x) && x != e implies holds(cols, x) by {
            assert(holds(left, x));
        }
    } else {
        assert(after == left);
    }
}

/// A window that moves to another workspace is held by that workspace
/// afterwards, where it is on a display, and by no other; and no window
/// is held twice afterwards if none was before.
pub proof fn lemma_window_rehomed_held_once(
    workspaces: Seq<WorkspaceView>,
    e: Entity,
    id: WorkspaceId,
)
    requires
        held_once(workspaces),
    ensures
        held_once(window_rehomed(workspaces, e, id)),
        forall|i: int|
            0 <= i < workspaces.len() ==> (holds(
                (#[trigger] window_rehomed(workspaces, e, id)[i]).cols,
                e,
            ) <==> i == home_index(workspaces, id, 0)),
{
    let after = window_rehomed(workspaces, e, id);
    assert forall|i: int| 0 <= i < after.len() implies columns_wf((#[trigger] after[i]).cols)
        && columns_disjoint(after[i].cols) by {
        lemma_window_rehomed_at(workspaces, e, id, i);
    }
    assert forall|i: int, j: int, x: Entity|
        0 <= i < after.len() && 0 <= j < after.len() && i != j && #[trigger] holds(
            after[i].cols,
            x,
        ) implies !#[trigger] holds(after[j].cols, x) by {
        lemma_window_rehomed_at(workspaces, e, id, i);
        lemma_window_rehomed_at(workspaces, e, id, j);
        if holds(after[j].cols, x) {
            if x != e {
                assert(holds(workspaces[i].cols, x));
                assert(holds(workspaces[j].cols, x));
            }
        }
    }
    assert forall|i: int| 0 <= i < workspaces.len() implies (holds(
        (#[trigger] after[i]).cols,
        e,
    ) <==> i == home_index(workspaces, id, 0)) by {
        lemma_window_rehomed_at(workspaces, e, id, i);
    }
}

proof fn lemma_windows_rehomed_held_once(w: WorldView, moved: Seq<Entity>, id: WorkspaceId, k: int)
    requires
        held_once(w.workspaces),
    ensures
        held_once(w.windows_rehomed(moved, id, k).workspaces),
    decreases moved.len() - k,
{
    if 0 <= k < moved.len() {
        let next = WorldView {
            windows: marked_for_reshuffle(w.windows, moved[k]),
            workspaces: window_rehomed(w.workspaces, moved[k], id),
            ..w
        };
        lemma_window_rehomed_held_once(w.workspaces, moved[k], id);
        lemma_windows_rehomed_held_once(next, moved, id, k + 1);
    }
}

/// The windows that are found on a workspace that became active move to
/// it and leave no window held twice.
pub proof fn lemma_activated_held_once(w: WorldView, strip: Entity, ids: Option<Seq<WinID>>)
    requires
        held_once(w.workspaces),
    ensures
        held_once(w.workspace_activated(strip, ids).workspaces),
{
    let at = workspace_entity_index(w.workspaces, strip, 0);
    if !(at >= w.workspaces.len() || w.workspaces[at].parent.is_none() || ids.is_none()) {
        lemma_windows_rehomed_held_once(
            w,
            newcomers(w.windows, ids.unwrap(), w.workspaces[at].cols, ids.unwrap().len() as int),
            w.workspaces[at].id,
            0,
        );
    }
}

/// A new and empty workspace leaves no window held twice.
proof fn lemma_held_once_with(workspaces: Seq<WorkspaceView>, entry: WorkspaceView)
    requires
        held_once(workspaces),
        entry.cols.len() == 0,
    ensures
        held_once(workspaces.push(entry)),
{
    let after = workspaces.push(entry);
    assert forall|i: int| 0 <= i < after.len() implies columns_wf((#[trigger] after[i]).cols)
        && columns_disjoint(after[i].cols) by {
        if i < workspaces.len() {
            assert(after[i] == workspaces[i]);
        }
    }
    assert forall|i: int, j: int, e: Entity|
        0 <= i < after.len() && 0 <= j < after.len() && i != j && #[trigger] holds(
            after[i].cols,
            e,
        ) implies !#[trigger] holds(after[j].cols, e) by {
        if holds(after[j].cols, e) {
            assert(i < workspaces.len() && j < workspaces.len());
            assert(holds(workspaces[i].cols, e));
            assert(holds(workspaces[j].cols, e));
        }
    }
}

proof fn lemma_workspaces_added_held_once(
    w: WorldView,
    spaces: Seq<WorkspaceId>,
    parent: Entity,
    active: Option<WorkspaceId>,
    told: Seq<Effect>,
    k: int,
)
    requires
        held_once(w.workspaces),
    ensures
        held_once(w.workspaces_added(spaces, parent, active, told, k).0.workspaces),
    decreases spaces.len() - k,
{
    if !(k < 0 || k >= spaces.len() || w.next_entity == u64::MAX) {
        let marked = active == Some(spaces[k]);
        let next = w.with_workspace(spaces[k], Some(parent), marked);
        lemma_held_once_with(w.workspaces, next.workspaces[w.workspaces.len() as int]);
        assert(next.workspaces =~= w.workspaces.push(
            next.workspaces[w.workspaces.len() as int],
        ));
        lemma_workspaces_added_held_once(
            next,
            spaces,
            parent,
            active,
            if marked {
                told.push(Effect::WorkspaceActivated(w.next_entity))
            } else {
                told
            },
            k + 1,
        );
    }
}

proof fn lemma_displays_gathered_held_once(
    w: WorldView,
    active_id: DisplayId,
    present: Seq<(Display, Seq<WorkspaceId>)>,
    active_space: Option<WorkspaceId>,
    told: Seq<Effect>,
    k: int,
)
    requires
        held_once(w.workspaces),
    ensures
        held_once(w.displays_gathered(active_id, present, active_space, told, k).0.workspaces),
    decreases present.len() - k,
{
    if !(k < 0 || k >= present.len() || w.next_entity == u64::MAX) {
        let entity = w.next_entity;
        let shown = w.with_display(present[k].0, present[k].0.id() == active_id);
        let located = told.push(Effect::LocateDock(entity));
        if active_space.is_some() {
            lemma_workspaces_added_held_once(shown, present[k].1, entity, active_space, located, 0);
            let (with_spaces, more) = shown.workspaces_added(
                present[k].1,
                entity,
                active_space,
                located,
                0,
            );
            lemma_displays_gathered_held_once(
                with_spaces,
                active_id,
                present,
                active_space,
                more,
                k + 1,
            );
        }
    }
}

/// Displays that enter the model with their workspaces leave no window
/// held twice.
pub proof fn lemma_displays_held_once(
    w: WorldView,
    id: DisplayId,
    present: Seq<(Display, Seq<WorkspaceId>)>,
    active_space: Option<WorkspaceId>,
)
    requires
        held_once(w.workspaces),
    ensures
        held_once(w.displays_gathered(id, present, active_space, Seq::empty(), 0).0.workspaces),
        held_once(w.display_added(id, present).workspaces),
{
    lemma_displays_gathered_held_once(w, id, present, active_space, Seq::empty(), 0);
    let at = present_index(present, id, 0);
    if !(at >= present.len() || w.next_entity == u64::MAX) {
        lemma_workspaces_added_held_once(
            w.with_display(present[at].0, false),
            present[at].1,
            w.next_entity,
            None,
            Seq::empty(),
            0,
        );
    }
}

proof fn lemma_pruned(cols: Seq<Seq<Entity>>, keep: Seq<Entity>, all: Seq<Entity>, k: int)
    requires
        columns_wf(cols),
        columns_disjoint(cols),
    ensures
        columns_wf(pruned(cols, keep, all, k)),
        columns_disjoint(pruned(cols, keep, all, k)),
        holds_no_more(pruned(cols, keep, all, k), cols),
    decreases all.len() - k,
{
    if 0 <= k < all.len() {
        if keep.contains(all[k]) {
            lemma_pruned(cols, keep, all, k + 1);
        } else {
            lemma_removed(cols, all[k]);
            lemma_pruned(removed(cols, all[k]), keep, all, k + 1);
            assert forall|x: Entity| holds(pruned(cols, keep, all, k), x) implies holds(
                cols,
                x,
            ) by {
                assert(holds(removed(cols, all[k]), x));
            }
        }
    }
}

proof fn lemma_joined(cols: Seq<Seq<Entity>>, found: Seq<Entity>, k: int)
    requires
        columns_wf(cols),
        columns_disjoint(cols),
    ensures
        columns_wf(joined(cols, found, k)),
        columns_disjoint(joined(cols, found, k)),
        forall|x: Entity| #[trigger]
            holds(joined(cols, found, k), x) ==> holds(cols, x) || found.contains(x),
    decreases found.len() - k,
{
    if 0 <= k < found.len() {
        if holds(cols, found[k]) {
            lemma_joined(cols, found, k + 1);
        } else {
            let more = cols.push(seq![found[k]]);
            lemma_entered(cols, cols.len() as int, found[k]);
            assert(cols.insert(cols.len() as int, seq![found[k]]) =~= more);
            lemma_joined(more, found, k + 1);
            assert forall|x: Entity| #[trigger]
                holds(joined(cols, found, k), x) implies holds(cols, x) || found.contains(x) by {
                if !found.contains(x) {
                    assert(holds(more, x));
                    assert(x != found[k]);
                }
            }
        }
    }
}

proof fn lemma_minimized_from_held_once(w: WorldView, found: Seq<Entity>, told: Seq<Effect>, k: int)
    requires
        held_once(w.workspaces),
        w.countable(),
    ensures
        held_once(w.minimized_from(found, told, k).0.workspaces),
    decreases found.len() - k,
{
    if 0 <= k < found.len() {
        let next = w.with_unmanaged(found[k], Unmanaged::Minimized);
        let more = match w.with_unmanaged_event(found[k], Unmanaged::Minimized) {
            Some(effect) => told.push(effect),
            None => told,
        };
        lemma_unmanaged_held_once(w, found[k], Unmanaged::Minimized);
        lemma_with_unmanaged_size(w, found[k], Unmanaged::Minimized);
        lemma_countable_kept(w, next);
        lemma_minimized_from_held_once(next, found, more, k + 1);
    }
}

/// Columns that let go of windows hold none of them afterwards, and no
/// window that they did not hold before, and still none twice.
proof fn lemma_released(cols: Seq<Seq<Entity>>, list: Seq<Entity>, k: int)
    requires
        0 <= k <= list.len(),
        columns_wf(cols),
        columns_disjoint(cols),
    ensures
        columns_wf(released(cols, list, k)),
        columns_disjoint(released(cols, list, k)),
        holds_no_more(released(cols, list, k), cols),
        forall|j: int| 0 <= j < k ==> !holds(released(cols, list, k), #[trigger] list[j]),
    decreases k,
{
    if k > 0 {
        let before = released(cols, list, k - 1);
        lemma_released(cols, list, k - 1);
        lemma_removed(before, list[k - 1]);
        let after = released(cols, list, k);
        assert forall|x: Entity| holds(after, x) implies holds(cols, x) by {
            assert(holds(before, x));
        }
        assert forall|j: int| 0 <= j < k implies !holds(after, #[trigger] list[j]) by {
            if j < k - 1 && holds(after, list[j]) {
                assert(holds(before, list[j]));
            }
        }
    }
}

/// A strip that is brought in line with the windows that are found on its
/// workspace leaves no window held twice.
pub proof fn lemma_refreshed_held_once(w: WorldView, strip: int, ids: Seq<WinID>)
    requires
        held_once(w.workspaces),
        w.countable(),
        0 <= strip < w.workspaces.len(),
    ensures
        held_once(w.workspace_refreshed(strip, ids).0.workspaces),
{
    let shown = found_windows(w.windows, ids, false, ids.len() as int);
    let hidden = found_windows(w.windows, ids, true, ids.len() as int);
    let before = w.workspaces[strip].cols;
    let kept = pruned(before, shown, flattened(before), 0);
    let cols = refreshed(before, shown);
    lemma_pruned(before, shown, flattened(before), 0);
    lemma_joined(kept, shown, 0);
    let after = WorldView {
        workspaces: released_elsewhere(w.with_cols(strip, cols).workspaces, strip, shown),
        ..w
    };
    assert forall|i: int| 0 <= i < after.workspaces.len() implies columns_wf(
        (#[trigger] after.workspaces[i]).cols,
    ) && columns_disjoint(after.workspaces[i].cols) && (i != strip ==> holds_no_more(
        after.workspaces[i].cols,
        w.workspaces[i].cols,
    ) && forall|x: Entity| shown.contains(x) ==> !holds(after.workspaces[i].cols, x)) by {
        if i != strip {
            lemma_released(w.workspaces[i].cols, shown, shown.len() as int);
            assert(after.workspaces[i].cols == released(
                w.workspaces[i].cols,
                shown,
                shown.len() as int,
            ));
            assert forall|x: Entity| shown.contains(x) implies !holds(
                after.workspaces[i].cols,
                x,
            ) by {
                let j = choose|j: int| 0 <= j < shown.len() && shown[j] == x;
                assert(!holds(after.workspaces[i].cols, shown[j]));
            }
        }
    }
    assert forall|i: int, j: int, e: Entity|
        0 <= i < after.workspaces.len() && 0 <= j < after.workspaces.len() && i != j
            && #[trigger] holds(after.workspaces[i].cols, e) implies !#[trigger] holds(
        after.workspaces[j].cols,
        e,
    ) by {
        if holds(after.workspaces[j].cols, e) {
            assert(columns_wf(after.workspaces[i].cols));
            assert(columns_wf(after.workspaces[j].cols));
            if i == strip {
                assert(!shown.contains(e));
                assert(holds(kept, e));
                assert(holds(w.workspaces[i].cols, e));
                assert(holds(w.workspaces[j].cols, e));
            } else if j == strip {
                assert(!shown.contains(e));
                assert(holds(kept, e));
                assert(holds(w.workspaces[j].cols, e));
                assert(holds(w.workspaces[i].cols, e));
            } else {
                assert(holds(w.workspaces[i].cols, e));
                assert(holds(w.workspaces[j].cols, e));
            }
        }
    }
    lemma_countable_kept(w, after);
    let raise = match to_raise(w.windows, cols, w.workspaces[strip].active.is_some()) {
        Some(e) => seq![Effect::FocusWithRaise(e)],
        None => Seq::empty(),
    };
    lemma_minimized_from_held_once(after, hidden, raise, 0);
}

/// The end of the startup leaves no window held twice.
pub proof fn lemma_startup_held_once(w: WorldView, pending: bool, found: Seq<Option<Seq<WinID>>>)
    requires
        held_once(w.workspaces),
        w.countable(),
    ensures
        held_once(w.startup_finished(pending, found).0.workspaces),
{
    lemma_workspaces_refreshed_held_once(w, found, Seq::empty(), 0);
}

proof fn lemma_workspaces_refreshed_held_once(
    w: WorldView,
    found: Seq<Option<Seq<WinID>>>,
    told: Seq<Effect>,
    k: int,
)
    requires
        held_once(w.workspaces),
        w.countable(),
    ensures
        held_once(w.workspaces_refreshed(found, told, k).0.workspaces),
    decreases found.len() - k,
{
    if !(k < 0 || k >= found.len() || k >= w.workspaces.len()) {
        match found[k] {
            Some(ids) => {
                lemma_refreshed_held_once(w, k, ids);
                lemma_refreshed_countable(w, k, ids);
                lemma_workspaces_refreshed_held_once(
                    w.workspace_refreshed(k, ids).0,
                    found,
                    told + w.workspace_refreshed(k, ids).1,
                    k + 1,
                );
            },
            None => lemma_workspaces_refreshed_held_once(w, found, told, k + 1),
        }
    }
}

proof fn lemma_minimized_from_countable(
    w: WorldView,
    found: Seq<Entity>,
    told: Seq<Effect>,
    k: int,
)
    requires
        w.countable(),
    ensures
        w.minimized_from(found, told, k).0.countable(),
    decreases found.len() - k,
{
    if 0 <= k < found.len() {
        let next = w.with_unmanaged(found[k], Unmanaged::Minimized);
        let more = match w.with_unmanaged_event(found[k], Unmanaged::Minimized) {
            Some(effect) => told.push(effect),
            None => told,
        };
        lemma_with_unmanaged_size(w, found[k], Unmanaged::Minimized);
        lemma_countable_kept(w, next);
        lemma_minimized_from_countable(next, found, more, k + 1);
    }
}

proof fn lemma_refreshed_countable(w: WorldView, strip: int, ids: Seq<WinID>)
    requires
        w.countable(),
        0 <= strip < w.workspaces.len(),
    ensures
        w.workspace_refreshed(strip, ids).0.countable(),
{
    let shown = found_windows(w.windows, ids, false, ids.len() as int);
    let hidden = found_windows(w.windows, ids, true, ids.len() as int);
    let cols = refreshed(w.workspaces[strip].cols, shown);
    let after = WorldView {
        workspaces: released_elsewhere(w.with_cols(strip, cols).workspaces, strip, shown),
        ..w
    };
    lemma_countable_kept(w, after);
    let raise = match to_raise(w.windows, cols, w.workspaces[strip].active.is_some()) {
        Some(e) => seq![Effect::FocusWithRaise(e)],
        None => Seq::empty(),
    };
    lemma_minimized_from_countable(after, hidden, raise, 0);
}

/// What only looks at the strips leaves them as they are: a change of
/// focus, the mouse, a swipe, a frame that the operating system reports,
/// a display that changes, the layout pass and the animation.
pub proof fn lemma_strips_kept(
    w: WorldView,
    id: WinID,
    at: Option<WinID>,
    frontmost: Option<bool>,
    display: Option<DisplayId>,
    space: Option<WorkspaceId>,
    fingers: usize,
    delta: Ratio,
    reported: Option<IRect>,
    resized: bool,
    event: Event,
    now: Option<Display>,
    e: Entity,
    position: Origin,
    size: Size,
)
    ensures
        w.window_focused(id, frontmost).workspaces == w.workspaces,
        w.front_switched(at).workspaces == w.workspaces,
        w.mouse_moved(at).workspaces == w.workspaces,
        w.mouse_down(at).workspaces == w.workspaces,
        w.mouse_dragged(at).workspaces == w.workspaces,
        w.display_changed(display).workspaces == w.workspaces,
        w.swiped(fingers, delta).workspaces == w.workspaces,
        w.frame_updated(id, reported, resized).workspaces == w.workspaces,
        w.dispatched(event).workspaces == w.workspaces,
        w.drag_settled().workspaces == w.workspaces,
        w.space_watched(space).workspaces == w.workspaces,
        display.is_some() ==> w.display_moved(display.unwrap(), now).workspaces == w.workspaces,
        w.reshuffled().workspaces == w.workspaces,
        w.swiped_through().workspaces == w.workspaces,
        w.window_moved(e, position).workspaces == w.workspaces,
        w.window_sized(e, size).workspaces == w.workspaces,
{
}

/// No command changes which display and which workspace are active.
pub proof fn lemma_commanded_active_kept(
    w: WorldView,
    command: Command,
    other_space: Option<WorkspaceId>,
)
    requires
        w.countable(),
    ensures
        w.commanded(command, other_space).0.active() == w.active(),
{
    let after = w.commanded(command, other_space).0;
    if w.active().is_some() {
        crate::world::lemma_active_in_range(w);
    }
    lemma_active_kept(w, after);
}

proof fn lemma_with_unmanaged_active_kept(w: WorldView, e: Entity, marker: Unmanaged)
    requires
        w.countable(),
    ensures
        w.with_unmanaged(e, marker).active() == w.active(),
{
    if w.active().is_some() {
        crate::world::lemma_active_in_range(w);
    }
    lemma_strip_holding(w.workspaces, e, 0);
    lemma_active_kept(w, w.with_unmanaged(e, marker));
}

proof fn lemma_without_unmanaged_active_kept(w: WorldView, e: Entity)
    requires
        w.countable(),
    ensures
        w.without_unmanaged(e).active() == w.active(),
{
    if w.active().is_some() {
        crate::world::lemma_active_in_range(w);
    }
    lemma_strip_holding(w.workspaces, e, 0);
    lemma_active_kept(w, w.without_unmanaged(e));
}

proof fn lemma_window_removed_active_kept(w: WorldView, e: Entity)
    requires
        w.countable(),
    ensures
        w.window_removed(e).active() == w.active(),
{
    if w.active().is_some() {
        crate::world::lemma_active_in_range(w);
    }
    lemma_strip_holding(w.workspaces, e, 0);
    lemma_active_kept(w, w.window_removed(e));
}

proof fn lemma_window_spawned_active_kept(w: WorldView, window: Window, e: Entity, p: WindowProperties)
    requires
        w.countable(),
    ensures
        w.window_spawned(window, e, p).active() == w.active(),
{
    if w.active().is_some() {
        crate::world::lemma_active_in_range(w);
    }
    lemma_strip_holding(w.workspaces, e, 0);
    lemma_active_kept(w, w.window_spawned(window, e, p));
}

proof fn lemma_window_focused_active_kept(w: WorldView, id: WinID, frontmost: Option<bool>)
    requires
        w.countable(),
    ensures
        w.window_focused(id, frontmost).active() == w.active(),
{
    if w.active().is_some() {
        crate::world::lemma_active_in_range(w);
    }
    lemma_active_kept(w, w.window_focused(id, frontmost));
}

proof fn lemma_mouse_active_kept(w: WorldView, at: Option<WinID>)
    requires
        w.countable(),
    ensures
        w.front_switched(at).active() == w.active(),
        w.mouse_moved(at).active() == w.active(),
        w.mouse_down(at).active() == w.active(),
        w.mouse_dragged(at).active() == w.active(),
{
    if w.active().is_some() {
        crate::world::lemma_active_in_range(w);
    }
    lemma_active_kept(w, w.front_switched(at));
    lemma_active_kept(w, w.mouse_moved(at));
    lemma_active_kept(w, w.mouse_down(at));
    lemma_active_kept(w, w.mouse_dragged(at));
}

proof fn lemma_swiped_active_kept(w: WorldView, fingers: usize, delta: Ratio)
    requires
        w.countable(),
    ensures
        w.swiped(fingers, delta).active() == w.active(),
{
    if w.active().is_some() {
        crate::world::lemma_active_in_range(w);
    }
    lemma_active_kept(w, w.swiped(fingers, delta));
}

proof fn lemma_frame_updated_active_kept(w: WorldView, id: WinID, reported: Option<IRect>, resized: bool)
    requires
        w.countable(),
    ensures
        w.frame_updated(id, reported, resized).active() == w.active(),
{
    if w.active().is_some() {
        crate::world::lemma_active_in_range(w);
    }
    lemma_active_kept(w, w.frame_updated(id, reported, resized));
}

proof fn lemma_passes_active_kept(w: WorldView, e: Entity, position: Origin, size: Size)
    requires
        w.countable(),
    ensures
        w.drag_settled().active() == w.active(),
        w.reshuffled().active() == w.active(),
        w.swiped_through().active() == w.active(),
        w.window_moved(e, position).active() == w.active(),
        w.window_sized(e, size).active() == w.active(),
{
    if w.active().is_some() {
        crate::world::lemma_active_in_range(w);
    }
    lemma_strip_holding(w.workspaces, e, 0);
    lemma_active_kept(w, w.drag_settled());
    lemma_active_kept(w, w.reshuffled());
    lemma_active_kept(w, w.swiped_through());
    lemma_active_kept(w, w.window_moved(e, position));
    lemma_active_kept(w, w.window_sized(e, size));
}

proof fn lemma_window_destroyed_active_kept(w: WorldView, id: WinID)
    requires
        w.countable(),
    ensures
        w.window_destroyed(id).active() == w.active(),
{
    let at = crate::world::window_index_by_id(w.windows, id);
    match w.active() {
        Some(active) => {
            crate::world::lemma_active_in_range(w);
            if at < w.windows.len() {
                let e = w.windows[at].entity;
                let given = w.focus_given_away(e, active.strip as int);
                lemma_active_kept(w, given);
                lemma_countable_kept(w, given);
                lemma_without_unmanaged_active_kept(given, e);
                let managed = given.without_unmanaged(e);
                lemma_without_unmanaged_size(given, e);
                lemma_countable_kept(given, managed);
                lemma_window_removed_active_kept(managed, e);
            }
        },
        None => {},
    }
}

/// Nothing that happens to a window changes which display and which
/// workspace are active: not that it enters or leaves the tiling, is
/// destroyed, minimized, focused, moved or resized, nor the mouse, a
/// swipe, the layout pass or the animation.
pub proof fn lemma_windows_active_kept(
    w: WorldView,
    e: Entity,
    marker: Unmanaged,
    id: WinID,
    at: Option<WinID>,
    frontmost: Option<bool>,
    window: Window,
    p: WindowProperties,
    fingers: usize,
    delta: Ratio,
    reported: Option<IRect>,
    resized: bool,
    position: Origin,
    size: Size,
)
    requires
        w.countable(),
    ensures
        w.with_unmanaged(e, marker).active() == w.active(),
        w.without_unmanaged(e).active() == w.active(),
        w.window_removed(e).active() == w.active(),
        w.window_destroyed(id).active() == w.active(),
        w.window_minimized(id).active() == w.active(),
        w.window_deminimized(id).active() == w.active(),
        w.window_spawned(window, e, p).active() == w.active(),
        w.window_focused(id, frontmost).active() == w.active(),
        w.front_switched(at).active() == w.active(),
        w.mouse_moved(at).active() == w.active(),
        w.mouse_down(at).active() == w.active(),
        w.mouse_dragged(at).active() == w.active(),
        w.swiped(fingers, delta).active() == w.active(),
        w.frame_updated(id, reported, resized).active() == w.active(),
        w.drag_settled().active() == w.active(),
        w.reshuffled().active() == w.active(),
        w.swiped_through().active() == w.active(),
        w.window_moved(e, position).active() == w.active(),
        w.window_sized(e, size).active() == w.active(),
{
    lemma_with_unmanaged_active_kept(w, e, marker);
    lemma_without_unmanaged_active_kept(w, e);
    lemma_window_removed_active_kept(w, e);
    let known = crate::world::window_index_by_id(w.windows, id);
    if known < w.windows.len() {
        lemma_with_unmanaged_active_kept(w, w.windows[known].entity, Unmanaged::Minimized);
        lemma_without_unmanaged_active_kept(w, w.windows[known].entity);
    }
    lemma_window_destroyed_active_kept(w, id);
    lemma_window_spawned_active_kept(w, window, e, p);
    lemma_window_focused_active_kept(w, id, frontmost);
    lemma_mouse_active_kept(w, at);
    lemma_swiped_active_kept(w, fingers, delta);
    lemma_frame_updated_active_kept(w, id, reported, resized);
    lemma_passes_active_kept(w, e, position, size);
}

proof fn lemma_hidden_from_active_kept(
    w: WorldView,
    seen: Seq<WindowEntry>,
    pid: Pid,
    told: Seq<Effect>,
    k: int,
)
    requires
        w.countable(),
    ensures
        w.hidden_from(seen, pid, told, k).0.active() == w.active(),
        w.hidden_from(seen, pid, told, k).0.countable(),
    decreases seen.len() - k,
{
    if 0 <= k < seen.len() {
        if seen[k].window.pid == pid && seen[k].unmanaged.is_none() {
            let next = w.with_unmanaged(seen[k].entity, Unmanaged::Hidden);
            let more = match w.with_unmanaged_event(seen[k].entity, Unmanaged::Hidden) {
                Some(effect) => told.push(effect),
                None => told,
            };
            lemma_with_unmanaged_active_kept(w, seen[k].entity, Unmanaged::Hidden);
            lemma_with_unmanaged_size(w, seen[k].entity, Unmanaged::Hidden);
            lemma_countable_kept(w, next);
            lemma_hidden_from_active_kept(next, seen, pid, more, k + 1);
        } else {
            lemma_hidden_from_active_kept(w, seen, pid, told, k + 1);
        }
    }
}

proof fn lemma_shown_from_active_kept(w: WorldView, seen: Seq<WindowEntry>, pid: Pid, k: int)
    requires
        w.countable(),
    ensures
        w.shown_from(seen, pid, k).active() == w.active(),
    decreases seen.len() - k,
{
    if 0 <= k < seen.len() {
        if seen[k].window.pid == pid && seen[k].unmanaged == Some(Unmanaged::Hidden) {
            let next = w.without_unmanaged(seen[k].entity);
            lemma_without_unmanaged_active_kept(w, seen[k].entity);
            lemma_without_unmanaged_size(w, seen[k].entity);
            lemma_countable_kept(w, next);
            lemma_shown_from_active_kept(next, seen, pid, k + 1);
        } else {
            lemma_shown_from_active_kept(w, seen, pid, k + 1);
        }
    }
}

/// Hiding an application and showing it again change neither which
/// display nor which workspace is active.
pub proof fn lemma_application_active_kept(w: WorldView, pid: Pid)
    requires
        w.countable(),
    ensures
        w.application_hidden(pid).0.active() == w.active(),
        w.application_visible(pid).active() == w.active(),
{
    lemma_hidden_from_active_kept(w, w.windows, pid, Seq::empty(), 0);
    lemma_shown_from_active_kept(w, w.windows, pid, 0);
}

/// A request to move or to take a size ends where the window arrives,
/// and at once where the display that it names is not known: the window
/// then carries the request no longer.
pub proof fn lemma_request_ends(w: WorldView, e: Entity, position: Origin, size: Size)
    requires
        has_window(w.windows, e),
    ensures
        ({
            let entry = entry_of(w.windows, e);
            let moved = entry_of(w.window_moved(e, position).windows, e);
            let sized = entry_of(w.window_sized(e, size).windows, e);
            &&& entry.reposition.is_some() && (display_index(
                w.displays,
                entry.reposition.unwrap().display_id,
                0,
            ) >= w.displays.len() || entry.reposition.unwrap().origin == position)
                ==> moved.reposition.is_none()
            &&& entry.resize.is_some() && entry.reposition.is_none() && (display_index(
                w.displays,
                entry.resize.unwrap().display_id,
                0,
            ) >= w.displays.len() || entry.resize.unwrap().size == size)
                ==> sized.resize.is_none()
        }),
{
    let entry = entry_of(w.windows, e);
    lemma_window_index(w.windows, e);
    let moved = w.window_moved(e, position).windows;
    let sized = w.window_sized(e, size).windows;
    assert(entry.entity == e);
    assert forall|i: int| 0 <= i < w.windows.len() implies w.windows[i].entity
        == moved[i].entity && w.windows[i].entity == sized[i].entity by {}
    lemma_same_entities_index(w.windows, moved, e);
    lemma_same_entities_index(w.windows, sized, e);
}

/// Where an orphan can take the place of a workspace, there is a first
/// pair of which this holds.
proof fn lemma_first_adoptable(w: WorldView, fresh: int, orphan: int)
    requires
        w.adoptable(fresh, orphan),
    ensures
        w.next_adoption().is_some(),
    decreases fresh, orphan,
{
    if !w.first_adoptable(fresh, orphan) {
        let (f, o) = choose|f: int, o: int|
            (f < fresh || (f == fresh && o < orphan)) && #[trigger] w.adoptable(f, o);
        lemma_first_adoptable(w, f, o);
    }
}

/// Once the orphans were taken back, none is left that could take the
/// place of a workspace on a display; and no window is held twice
/// afterwards if none was before.
pub proof fn lemma_orphans_adopted(w: WorldView, found: Map<WorkspaceId, Vec<WinID>>, n: nat)
    requires
        n >= w.workspaces.len(),
    ensures
        forall|f: int, o: int| !#[trigger] w.orphans_adopted(found, n).adoptable(f, o),
        held_once(w.workspaces) ==> held_once(w.orphans_adopted(found, n).workspaces),
        w.orphans_adopted(found, n).workspaces.len() <= w.workspaces.len(),
    decreases n,
{
    match w.next_adoption() {
        Some((fresh, orphan)) => {
            assert(w.first_adoptable(fresh, orphan));
            let ids = windows_found(found, w.workspaces[orphan].id);
            lemma_adoption_keeps_strip(w, fresh, orphan, ids);
            if held_once(w.workspaces) {
                lemma_adopted_held_once(w, fresh, orphan, ids);
            }
            lemma_orphans_adopted(w.orphan_adopted(fresh, orphan, ids), found, (n - 1) as nat);
        },
        None => {
            assert forall|f: int, o: int| !#[trigger] w.adoptable(f, o) by {
                if w.adoptable(f, o) {
                    lemma_first_adoptable(w, f, o);
                }
            }
        },
    }
}

/// A window that is given an entry has that entry.
proof fn lemma_put(windows: Seq<WindowEntry>, e: Entity, entry: WindowEntry)
    requires
        has_window(windows, e),
        entry.entity == e,
    ensures
        has_window(with_window(windows, e, entry), e),
        entry_of(with_window(windows, e, entry), e) == entry,
{
    lemma_window_index(windows, e);
    let after = with_window(windows, e, entry);
    assert forall|i: int| 0 <= i < windows.len() implies windows[i].entity
        == after[i].entity by {}
    lemma_same_entities_index(windows, after, e);
}

/// What the focused window is asked when it is told what share of the
/// display to take and where to start, and to be brought into view.
proof fn lemma_asked(
    windows: Seq<WindowEntry>,
    e: Entity,
    origin: Origin,
    size: Size,
    display_id: DisplayId,
)
    requires
        has_window(windows, e),
        size.x > 0,
        size.y > 0,
    ensures
        ({
            let after = marked_for_reshuffle(
                resized(repositioned(windows, e, origin, display_id), e, size, display_id),
                e,
            );
            let entry = entry_of(after, e);
            &&& has_window(after, e)
            &&& entry == (WindowEntry {
                reposition: Some(RepositionMarker { origin, display_id }),
                resize: Some(ResizeMarker { size, display_id }),
                reshuffle: Some(ReshuffleAroundMarker),
                ..entry_of(windows, e)
            })
        }),
{
    lemma_window_index(windows, e);
    let first = WindowEntry {
        reposition: Some(RepositionMarker { origin, display_id }),
        ..entry_of(windows, e)
    };
    lemma_put(windows, e, first);
    let moved = repositioned(windows, e, origin, display_id);
    let second = WindowEntry { resize: Some(ResizeMarker { size, display_id }), ..first };
    lemma_put(moved, e, second);
    let sized = resized(moved, e, size, display_id);
    let third = WindowEntry { reshuffle: Some(ReshuffleAroundMarker), ..second };
    lemma_put(sized, e, third);
}

/// Going full width: the focused window leaves its stack to become a
/// column of its own; the share of the display that it had is noted, with
/// whether it was stacked; it is asked to take the padded width of the
/// display at the height it has, to start at the left padding, and to be
/// brought into view. This holds where the padded width and the window's
/// height are positive.
pub proof fn lemma_full_width_entered(w: WorldView)
    requires
        w.countable(),
        w.active().is_some(),
        focus_of(w.windows).is_some(),
        has_window(w.windows, focus_of(w.windows).unwrap()),
        entry_of(w.windows, focus_of(w.windows).unwrap()).full_width.is_none(),
        w.padded_width(w.active().unwrap().display as int) > 0,
        entry_of(w.windows, focus_of(w.windows).unwrap()).window.frame.spec_height() > 0,
    ensures
        ({
            let active = w.active().unwrap();
            let focus = focus_of(w.windows).unwrap();
            let entry = entry_of(w.windows, focus);
            let cols = w.workspaces[active.strip as int].cols;
            let display = w.displays[active.display as int].display;
            let after = w.full_width_toggled();
            &&& after.workspaces[active.strip as int].cols == (if is_stacked(cols, focus) {
                unstacked(cols, focus)
            } else {
                cols
            })
            &&& entry_of(after.windows, focus) == (WindowEntry {
                full_width: Some(
                    FullWidthMarker {
                        width_ratio: entry.window.width_ratio,
                        was_stacked: is_stacked(cols, focus),
                    },
                ),
                resize: Some(
                    ResizeMarker {
                        size: point(
                            w.padded_width(active.display as int),
                            saturated(entry.window.frame.spec_height()),
                        ),
                        display_id: display.id(),
                    },
                ),
                reposition: Some(
                    RepositionMarker {
                        origin: display.spec_absolute(
                            point(
                                w.config.edge_padding().left as int,
                                entry.window.frame.min.y as int,
                            ),
                        ),
                        display_id: display.id(),
                    },
                ),
                reshuffle: Some(ReshuffleAroundMarker),
                ..entry
            })
        }),
{
    crate::world::lemma_active_in_range(w);
    let active = w.active().unwrap();
    let focus = focus_of(w.windows).unwrap();
    let entry = entry_of(w.windows, focus);
    let cols = w.workspaces[active.strip as int].cols;
    let display = w.displays[active.display as int].display;
    let marker = FullWidthMarker {
        width_ratio: entry.window.width_ratio,
        was_stacked: is_stacked(cols, focus),
    };
    lemma_window_index(w.windows, focus);
    let noted = with_window(w.windows, focus, WindowEntry { full_width: Some(marker), ..entry });
    lemma_put(w.windows, focus, WindowEntry { full_width: Some(marker), ..entry });
    lemma_asked(
        noted,
        focus,
        display.spec_absolute(
            point(w.config.edge_padding().left as int, entry.window.frame.min.y as int),
        ),
        point(
            w.padded_width(active.display as int),
            saturated(entry.window.frame.spec_height()),
        ),
        display.id(),
    );
}

/// Going back from full width: the note is dropped; the window is asked
/// to take the share of the padded width that it had, rounded, at the
/// height it has, to start where it is but no further right than lets it
/// end at the padded right edge, and to be brought into view; and a
/// window that was stacked is stacked onto the column to its left again.
/// This holds where that width and the window's height are positive.
pub proof fn lemma_full_width_left(w: WorldView)
    requires
        w.countable(),
        w.active().is_some(),
        focus_of(w.windows).is_some(),
        has_window(w.windows, focus_of(w.windows).unwrap()),
        entry_of(w.windows, focus_of(w.windows).unwrap()).full_width.is_some(),
        entry_of(
            w.windows,
            focus_of(w.windows).unwrap(),
        ).full_width.unwrap().width_ratio.spec_of_rounded(
            w.padded_width(w.active().unwrap().display as int),
        ) > 0,
        entry_of(w.windows, focus_of(w.windows).unwrap()).window.frame.spec_height() > 0,
    ensures
        ({
            let active = w.active().unwrap();
            let focus = focus_of(w.windows).unwrap();
            let entry = entry_of(w.windows, focus);
            let note = entry.full_width.unwrap();
            let cols = w.workspaces[active.strip as int].cols;
            let display = w.displays[active.display as int].display;
            let width = saturated(
                note.width_ratio.spec_of_rounded(w.padded_width(active.display as int)),
            );
            let after = w.full_width_toggled();
            &&& after.workspaces[active.strip as int].cols == (if note.was_stacked && holds(
                cols,
                focus,
            ) {
                stacked(cols, focus)
            } else {
                cols
            })
            &&& entry_of(after.windows, focus) == (WindowEntry {
                full_width: None,
                resize: Some(
                    ResizeMarker {
                        size: point(width, saturated(entry.window.frame.spec_height())),
                        display_id: display.id(),
                    },
                ),
                reposition: Some(
                    RepositionMarker {
                        origin: display.spec_absolute(
                            point(
                                crate::geometry::spec_min(
                                    saturated(display.bounds().spec_width())
                                        - w.config.edge_padding().right - width,
                                    entry.window.frame.min.x as int,
                                ),
                                entry.window.frame.min.y as int,
                            ),
                        ),
                        display_id: display.id(),
                    },
                ),
                reshuffle: Some(ReshuffleAroundMarker),
                ..entry
            })
        }),
{
    crate::world::lemma_active_in_range(w);
    let active = w.active().unwrap();
    let focus = focus_of(w.windows).unwrap();
    let entry = entry_of(w.windows, focus);
    let note = entry.full_width.unwrap();
    let display = w.displays[active.display as int].display;
    let width = saturated(note.width_ratio.spec_of_rounded(w.padded_width(active.display as int)));
    lemma_window_index(w.windows, focus);
    let noted = with_window(w.windows, focus, WindowEntry { full_width: None, ..entry });
    lemma_put(w.windows, focus, WindowEntry { full_width: None, ..entry });
    lemma_asked(
        noted,
        focus,
        display.spec_absolute(
            point(
                crate::geometry::spec_min(
                    saturated(display.bounds().spec_width()) - w.config.edge_padding().right
                        - width,
                    entry.window.frame.min.x as int,
                ),
                entry.window.frame.min.y as int,
            ),
        ),
        point(width, saturated(entry.window.frame.spec_height())),
        display.id(),
    );
}

/// Where the focus is asked to move and no window of the strip lies that
/// way, no window is asked to be brought into view and none to be
/// focused: going north or south, the mouse is sent to the next display
/// where a display that is not the active one lies higher, or lower, than
/// the active one, and that is all that is asked; going any other way,
/// nothing is asked.
pub proof fn lemma_focus_leaves_display(w: WorldView, direction: Direction)
    requires
        w.active().is_some(),
        focus_of(w.windows).is_some(),
        w.in_direction(direction).is_none(),
    ensures
        ({
            let here = w.displays[w.active().unwrap().display as int].display.bounds();
            let sent = seq![
                Effect::Send(
                    SendMessageTrigger(
                        Event::Command { command: Command::Mouse(MouseMove::ToNextDisplay) },
                    ),
                ),
            ];
            &&& w.focus_moved(direction) == w
            &&& w.focus_moved_effects(direction) == sent || w.focus_moved_effects(direction)
                == Seq::<Effect>::empty()
            &&& direction is North ==> (w.focus_moved_effects(direction) == sent <==> exists|
                j: int,
            |
                0 <= j < w.displays.len() && (#[trigger] w.displays[j]).active.is_none()
                    && w.displays[j].display.bounds().min.y < here.min.y)
            &&& direction is South ==> (w.focus_moved_effects(direction) == sent <==> exists|
                j: int,
            |
                0 <= j < w.displays.len() && (#[trigger] w.displays[j]).active.is_none()
                    && w.displays[j].display.bounds().min.y > here.min.y)
            &&& !(direction is North) && !(direction is South) ==> w.focus_moved_effects(direction)
                == Seq::<Effect>::empty()
        }),
{
    let here = w.displays[w.active().unwrap().display as int].display.bounds();
    let sent = seq![
        Effect::Send(
            SendMessageTrigger(Event::Command { command: Command::Mouse(MouseMove::ToNextDisplay) }),
        ),
    ];
    assert(sent.len() == 1);
    assert(sent != Seq::<Effect>::empty());
    if lies_beyond(w.displays, direction, here) {
        let j = choose|j: int|
            0 <= j < w.displays.len() && (#[trigger] w.displays[j]).active.is_none()
                && leads_to_other_display(direction, here, w.displays[j].display.bounds());
        assert(w.displays[j].active.is_none());
    }
}

/// The window that shows most is one of the windows that are known, shows
/// the area that goes with it, and no window that is known shows more;
/// there is none only where no window is known.
pub proof fn lemma_most_visible(windows: Seq<WindowEntry>, stack: Seq<Entity>, bounds: IRect, k: int)
    requires
        0 <= k <= stack.len(),
    ensures
        match most_visible(windows, stack, bounds, k) {
            Some((e, shown)) => {
                &&& stack.take(k).contains(e)
                &&& has_window(windows, e)
                &&& shown == area(overlap_of(bounds, entry_of(windows, e).window.frame))
                &&& forall|j: int|
                    0 <= j < k && has_window(windows, #[trigger] stack[j]) ==> area(
                        overlap_of(bounds, entry_of(windows, stack[j]).window.frame),
                    ) <= shown
            },
            None => forall|j: int| 0 <= j < k ==> !has_window(windows, #[trigger] stack[j]),
        },
    decreases k,
{
    if k > 0 {
        lemma_most_visible(windows, stack, bounds, k - 1);
        let e = stack[k - 1];
        assert(stack.take(k)[k - 1] == e);
        match most_visible(windows, stack, bounds, k - 1) {
            Some((b, _)) => {
                let before = stack.take(k - 1);
                let i = choose|i: int| 0 <= i < before.len() && #[trigger] before[i] == b;
                assert(stack.take(k)[i] == b);
            },
            None => {},
        }
    }
}

/// Where the mouse is sent to the next display, it goes to the middle of
/// what shows there of the window of the workspace that shows the largest
/// area, and what the mouse focused is forgotten. Nothing happens
/// without another display, without a workspace that is known by the
/// name given, or where that workspace holds no window that is known.
pub proof fn lemma_mouse_sent(w: WorldView, space: Option<WorkspaceId>)
    ensures
        ({
            let other = crate::world::next_display(w.displays, false, 0);
            let at = workspace_index(w.workspaces, space.unwrap(), 0);
            let all = flattened(w.workspaces[at].cols);
            let there = w.displays[other].display.bounds();
            &&& other >= w.displays.len() || space.is_none() || at >= w.workspaces.len() || (
            forall|j: int| 0 <= j < all.len() ==> !has_window(w.windows, #[trigger] all[j]))
                ==> w.mouse_moved_to_next_display(space) == w
                && w.mouse_moved_to_next_display_effects(space) == Seq::<Effect>::empty()
            &&& w.mouse_target(space) matches Some(e) ==> {
                &&& all.contains(e)
                &&& has_window(w.windows, e)
                &&& forall|j: int|
                    0 <= j < all.len() && has_window(w.windows, #[trigger] all[j]) ==> area(
                        overlap_of(there, entry_of(w.windows, all[j]).window.frame),
                    ) <= area(overlap_of(there, entry_of(w.windows, e).window.frame))
            }
            &&& w.mouse_target_frame(space) matches Some(shown) ==> {
                &&& shown == overlap_of(
                    there,
                    entry_of(w.windows, w.mouse_target(space).unwrap()).window.frame,
                )
                &&& w.mouse_moved_to_next_display(space).focus_follows_mouse
                    == FocusFollowsMouse(None)
                &&& w.mouse_moved_to_next_display_effects(space) == seq![
                    Effect::CenterMouse { on: None, bounds: shown },
                    Effect::Trigger(
                        WMEventTrigger(
                            Event::MouseMoved {
                                point: IVec2 {
                                    x: crate::geometry::half(shown.min.x + shown.max.x) as i32,
                                    y: crate::geometry::half(shown.min.y + shown.max.y) as i32,
                                },
                            },
                        ),
                    ),
                ]
            }
        }),
{
    let other = crate::world::next_display(w.displays, false, 0);
    if other < w.displays.len() && space.is_some() {
        let at = workspace_index(w.workspaces, space.unwrap(), 0);
        if at < w.workspaces.len() {
            let all = flattened(w.workspaces[at].cols);
            lemma_most_visible(w.windows, all, w.displays[other].display.bounds(), all.len() as int);
            assert(all.take(all.len() as int) =~= all);
        }
    }
}

/// A window that a strip holds is held.
proof fn lemma_held_by(workspaces: Seq<WorkspaceView>, x: Entity, i: int)
    requires
        0 <= i < workspaces.len(),
        holds(workspaces[i].cols, x),
    ensures
        strip_holding(workspaces, x, 0) < workspaces.len(),
{
    lemma_strip_holding(workspaces, x, 0);
}

/// A window that returns to the tiling is held by a strip afterwards,
/// and so is every window that was held before.
proof fn lemma_returned_is_held(w: WorldView, e: Entity)
    requires
        w.countable(),
        w.active().is_some(),
    ensures
        has_window(w.windows, e) && entry_of(w.windows, e).unmanaged.is_some()
            ==> w.without_unmanaged(e).held(e),
        forall|x: Entity| w.held(x) ==> #[trigger] w.without_unmanaged(e).held(x),
{
    crate::world::lemma_active_in_range(w);
    let after = w.without_unmanaged(e);
    let s = w.active().unwrap().strip as int;
    let cols = w.workspaces[s].cols;
    if has_window(w.windows, e) && entry_of(w.windows, e).unmanaged.is_some() {
        if w.held(e) {
            assert(after.workspaces == w.workspaces);
        } else {
            assert(after.workspaces[s].cols == cols.push(seq![e]));
            assert(cols.push(seq![e])[cols.len() as int] == seq![e]);
            assert(seq![e][0] == e);
            assert(cols.push(seq![e])[cols.len() as int].contains(e));
            lemma_held_by(after.workspaces, e, s);
            assert forall|x: Entity| w.held(x) implies #[trigger] after.held(x) by {
                lemma_strip_holding(w.workspaces, x, 0);
                let j = strip_holding(w.workspaces, x, 0);
                if j == s {
                    let c = choose|c: int| 0 <= c < cols.len() && (#[trigger] cols[c]).contains(x);
                    assert(cols.push(seq![e])[c] == cols[c]);
                    assert(holds(after.workspaces[s].cols, x));
                } else {
                    assert(after.workspaces[j] == w.workspaces[j]);
                }
                lemma_held_by(after.workspaces, x, j);
            }
        }
    }
}

proof fn lemma_shown_from_held(w: WorldView, seen: Seq<WindowEntry>, pid: Pid, k: int)
    requires
        0 <= k <= seen.len(),
        entities_unique(seen),
        seen.len() == w.windows.len(),
        forall|i: int| 0 <= i < seen.len() ==> seen[i].entity == w.windows[i].entity,
        w.countable(),
        w.active().is_some(),
    ensures
        forall|x: Entity| w.held(x) ==> #[trigger] w.shown_from(seen, pid, k).held(x),
        forall|i: int|
            k <= i < seen.len() && seen[i].window.pid == pid && seen[i].unmanaged == Some(
                Unmanaged::Hidden,
            ) && w.windows[i].unmanaged.is_some() ==> w.shown_from(seen, pid, k).held(
                #[trigger] seen[i].entity,
            ),
    decreases seen.len() - k,
{
    if k < seen.len() {
        if seen[k].window.pid == pid && seen[k].unmanaged == Some(Unmanaged::Hidden) {
            let e = seen[k].entity;
            let next = w.without_unmanaged(e);
            lemma_without_unmanaged(w, e);
            lemma_unique_transfer(seen, w.windows);
            lemma_index_of_unique(w.windows, k);
            lemma_returned_is_held(w, e);
            lemma_without_unmanaged_active_kept(w, e);
            lemma_without_unmanaged_size(w, e);
            lemma_countable_kept(w, next);
            lemma_shown_from_held(next, seen, pid, k + 1);
            let after = w.shown_from(seen, pid, k);
            assert forall|x: Entity| w.held(x) implies #[trigger] after.held(x) by {
                assert(next.held(x));
            }
            assert forall|i: int|
                k <= i < seen.len() && seen[i].window.pid == pid && seen[i].unmanaged == Some(
                    Unmanaged::Hidden,
                ) && w.windows[i].unmanaged.is_some() implies after.held(
                #[trigger] seen[i].entity,
            ) by {
                if i == k {
                    assert(next.held(e));
                } else {
                    assert(next.windows[i].unmanaged == w.windows[i].unmanaged);
                }
            }
        } else {
            lemma_shown_from_held(w, seen, pid, k + 1);
        }
    }
}

/// Hiding an application and showing it again, with nothing happening in
/// between, returns its windows to the tiling: where there is an active
/// display and workspace, every window of the application that was in
/// the tiling before, or hidden, is held by a strip afterwards, and so
/// is every window that a strip held after the hiding.
pub proof fn lemma_hidden_then_visible_held(w: WorldView, pid: Pid)
    requires
        entities_unique(w.windows),
        w.countable(),
        w.active().is_some(),
    ensures
        ({
            let hidden = w.application_hidden(pid).0;
            let shown = hidden.application_visible(pid);
            &&& shown.active() == w.active()
            &&& forall|x: Entity| hidden.held(x) ==> #[trigger] shown.held(x)
            &&& forall|i: int|
                0 <= i < w.windows.len() && w.windows[i].window.pid == pid && (
                w.windows[i].unmanaged.is_none() || w.windows[i].unmanaged == Some(
                    Unmanaged::Hidden,
                )) ==> shown.held(#[trigger] w.windows[i].entity)
        }),
{
    let hidden = w.application_hidden(pid).0;
    lemma_hidden_from(w, w.windows, pid, Seq::empty(), 0);
    lemma_hidden_from_active_kept(w, w.windows, pid, Seq::empty(), 0);
    lemma_shown_from_active_kept(hidden, hidden.windows, pid, 0);
    assert(entities_unique(hidden.windows)) by {
        assert forall|i: int, j: int|
            0 <= i < hidden.windows.len() && 0 <= j < hidden.windows.len() && i != j implies hidden.windows[i].entity
            != hidden.windows[j].entity by {
            assert(hidden.windows[i].entity == w.windows[i].entity);
            assert(hidden.windows[j].entity == w.windows[j].entity);
        }
    }
    lemma_shown_from_held(hidden, hidden.windows, pid, 0);
    let shown = hidden.application_visible(pid);
    assert forall|i: int|
        0 <= i < w.windows.len() && w.windows[i].window.pid == pid && (
        w.windows[i].unmanaged.is_none() || w.windows[i].unmanaged == Some(
            Unmanaged::Hidden,
        )) implies shown.held(#[trigger] w.windows[i].entity) by {
        assert(hidden.windows[i].entity == w.windows[i].entity);
        assert(hidden.windows[i].window == w.windows[i].window);
        assert(hidden.windows[i].unmanaged == Some(Unmanaged::Hidden));
        assert(shown.held(hidden.windows[i].entity));
    }
}

/// An item of the layout stands in the column at `i`: its window is one
/// of that column, and it starts where the column starts in the
/// viewport and is as wide as the column.
pub open spec fn laid_at(
    cols: Seq<Seq<Entity>>,
    frames: Map<Entity, IRect>,
    offset: int,
    viewport: IRect,
    i: int,
    item: (Entity, IRect),
) -> bool {
    let x = column_x(extent(cols, frames, i), offset, viewport, column_width(cols[i], frames));
    &&& 0 <= i < cols.len()
    &&& framed(cols[i], frames)
    &&& cols[i].contains(item.0)
    &&& frames.contains_key(item.0)
    &&& item.1.min.x == x as i32
    &&& item.1.max.x == (x + column_width(cols[i], frames)) as i32
}

proof fn lemma_column_frames(
    col: Seq<Entity>,
    heights: Seq<int>,
    frames: Map<Entity, IRect>,
    x: int,
    width: int,
    k: int,
    t: int,
)
    requires
        0 <= k <= col.len(),
        0 <= t < column_frames(col, heights, frames, x, width, k).len(),
    ensures
        ({
            let item = column_frames(col, heights, frames, x, width, k)[t];
            &&& col.contains(item.0)
            &&& frames.contains_key(item.0)
            &&& item.1.min.x == x as i32
            &&& item.1.max.x == (x + width) as i32
        }),
    decreases k,
{
    if k > 0 {
        let before = column_frames(col, heights, frames, x, width, k - 1);
        if t < before.len() {
            lemma_column_frames(col, heights, frames, x, width, k - 1, t);
        } else {
            assert(col[k - 1] == col[k - 1]);
        }
    }
}

/// Every item of the layout stands in a column of the strip.
pub proof fn lemma_layout_item(
    cols: Seq<Seq<Entity>>,
    frames: Map<Entity, IRect>,
    offset: int,
    viewport: IRect,
    k: int,
    t: int,
)
    requires
        0 <= k <= cols.len(),
        0 <= t < layout(cols, frames, offset, viewport, k).len(),
    ensures
        exists|i: int|
            i < k && #[trigger] laid_at(
                cols,
                frames,
                offset,
                viewport,
                i,
                layout(cols, frames, offset, viewport, k)[t],
            ),
    decreases k,
{
    if k > 0 {
        let before = layout(cols, frames, offset, viewport, k - 1);
        if framed(cols[k - 1], frames) && t >= before.len() {
            let col = cols[k - 1];
            let width = column_width(col, frames);
            let x = column_x(extent(cols, frames, k - 1), offset, viewport, width);
            let heights = crate::binpack::binpack(
                crate::layout::known_heights(col, frames, col.len() as int),
                crate::layout::MIN_WINDOW_HEIGHT as int,
                viewport.spec_height(),
            ).unwrap();
            let n = crate::layout::spec_min_len(col.len() as int, heights.len() as int);
            lemma_column_frames(col, heights, frames, x, width, n, t - before.len());
            assert(laid_at(
                cols,
                frames,
                offset,
                viewport,
                k - 1,
                layout(cols, frames, offset, viewport, k)[t],
            ));
        } else {
            lemma_layout_item(cols, frames, offset, viewport, k - 1, t);
            let i = choose|i: int|
                i < k - 1 && #[trigger] laid_at(cols, frames, offset, viewport, i, before[t]);
            assert(laid_at(
                cols,
                frames,
                offset,
                viewport,
                i,
                layout(cols, frames, offset, viewport, k)[t],
            ));
        }
    }
}

/// What a pass asks of the window of the item at `s` of the layout.
pub open spec fn asked_of(
    laid: Seq<(Entity, IRect)>,
    cols: Seq<Seq<Entity>>,
    frames: Map<Entity, IRect>,
    h_pads: Map<Entity, i32>,
    stage: Stage,
    s: int,
) -> Target {
    crate::systems::target_of(
        laid[s].0,
        frames[laid[s].0],
        placed(
            laid[s].1,
            crate::systems::h_pad_of(h_pads, laid[s].0),
            is_stacked(cols, laid[s].0),
            stage,
        ),
    )
}

/// Everything that a pass asks is asked of the window of an item of the
/// layout.
pub proof fn lemma_targets_item(
    laid: Seq<(Entity, IRect)>,
    cols: Seq<Seq<Entity>>,
    frames: Map<Entity, IRect>,
    h_pads: Map<Entity, i32>,
    stage: Stage,
    k: int,
    t: int,
)
    requires
        0 <= k <= laid.len(),
        0 <= t < crate::systems::targets(laid, cols, frames, h_pads, stage, k).len(),
    ensures
        exists|s: int|
            0 <= s < k && frames.contains_key(laid[s].0) && crate::systems::targets(
                laid,
                cols,
                frames,
                h_pads,
                stage,
                k,
            )[t] == #[trigger] asked_of(laid, cols, frames, h_pads, stage, s),
    decreases k,
{
    if k > 0 {
        let before = crate::systems::targets(laid, cols, frames, h_pads, stage, k - 1);
        if frames.contains_key(laid[k - 1].0) && t >= before.len() {
            assert(crate::systems::targets(laid, cols, frames, h_pads, stage, k)[t] == asked_of(
                laid,
                cols,
                frames,
                h_pads,
                stage,
                k - 1,
            ));
        } else {
            lemma_targets_item(laid, cols, frames, h_pads, stage, k - 1, t);
            let s = choose|s: int|
                0 <= s < k - 1 && frames.contains_key(laid[s].0) && before[t] == #[trigger] asked_of(
                    laid,
                    cols,
                    frames,
                    h_pads,
                    stage,
                    s,
                );
            assert(crate::systems::targets(laid, cols, frames, h_pads, stage, k)[t] == asked_of(
                laid,
                cols,
                frames,
                h_pads,
                stage,
                s,
            ));
        }
    }
}

proof fn lemma_positions_full(cols: Seq<Seq<Entity>>, frames: Map<Entity, IRect>, k: int)
    requires
        0 <= k <= cols.len(),
        forall|j: int| 0 <= j < k ==> framed(#[trigger] cols[j], frames),
    ensures
        positions(cols, frames, k).len() == k,
        forall|j: int|
            0 <= j < k ==> #[trigger] positions(cols, frames, k)[j] == (j, extent(cols, frames, j)),
    decreases k,
{
    if k > 0 {
        lemma_positions_full(cols, frames, k - 1);
    }
}

proof fn lemma_positions_prefix(cols: Seq<Seq<Entity>>, frames: Map<Entity, IRect>, m: int, k: int)
    requires
        0 <= m <= k <= cols.len(),
    ensures
        positions(cols, frames, m).len() <= positions(cols, frames, k).len(),
        forall|j: int|
            0 <= j < positions(cols, frames, m).len() ==> #[trigger] positions(cols, frames, k)[j]
                == positions(cols, frames, m)[j],
    decreases k,
{
    if k > m {
        lemma_positions_prefix(cols, frames, m, k - 1);
    }
}

/// The layout pass around a window asks the window to start where it was
/// brought into view: whatever the pass asks of the window, it asks it to
/// start at the left edge of the frame that brings it into view, and
/// where it asks for no move, the window is going to start there
/// already. This holds where the frames of the columns up to the
/// window's are known, the column is not held at an edge of the viewport
/// and shows more than the threshold, and the arithmetic stays within
/// `i32`.
pub proof fn lemma_pass_exposes(
    windows: Seq<WindowEntry>,
    display: DisplayEntry,
    cols: Seq<Seq<Entity>>,
    stage: Stage,
    e: Entity,
    t: int,
)
    requires
        stage.display == display.display.bounds(),
        columns_disjoint(cols),
        reshuffle_targets(windows, display, cols, stage, e).is_some(),
        0 <= t < reshuffle_targets(windows, display, cols, stage, e).unwrap().len(),
        reshuffle_targets(windows, display, cols, stage, e).unwrap()[t].entity == e,
        forall|j: int|
            0 <= j <= column_of(cols, e) ==> framed(
                #[trigger] cols[j],
                frames_of(windows, display.display.id(), windows.len() as int),
            ),
        ({
            let frames = frames_of(windows, display.display.id(), windows.len() as int);
            let x = exposed_window(windows, display, stage, e).min.x;
            let index = column_of(cols, e);
            let width = column_width(cols[index], frames);
            let anchor = anchor_offset(
                extent(cols, frames, index),
                x as int,
                stage.display.min.x as int,
            );
            &&& fits_i32(anchor)
            &&& fits_i32(anchor + stage.padding.left)
            &&& stage.spec_viewport().min.x + WINDOW_HIDDEN_THRESHOLD - width <= x
                - stage.display.min.x - stage.padding.left <= stage.spec_viewport().spec_width()
                - WINDOW_HIDDEN_THRESHOLD
            &&& fits_i32(x - stage.padding.left)
            &&& fits_i32(x + width)
            &&& fits_i32(x + width - stage.padding.left)
            &&& !off_screen((x as int, x + width), stage)
        }),
    ensures
        ({
            let frames = frames_of(windows, display.display.id(), windows.len() as int);
            let x = exposed_window(windows, display, stage, e).min.x;
            let asked = reshuffle_targets(windows, display, cols, stage, e).unwrap()[t];
            &&& asked.reposition matches Some(origin) ==> origin.x == x
            &&& asked.reposition.is_none() ==> frames.contains_key(e) && frames[e].min.x == x
        }),
{
    let frames = frames_of(windows, display.display.id(), windows.len() as int);
    let h_pads = crate::world::h_pads_of(windows, windows.len() as int);
    let x = exposed_window(windows, display, stage, e).min.x;
    let index = column_of(cols, e);
    let width = column_width(cols[index], frames);
    let position = extent(cols, frames, index);
    let offset = saturated(anchor_offset(position, x as int, stage.display.min.x as int));
    let view = stage.spec_viewport();
    crate::world::lemma_frames_of_valid(windows, display.display.id(), windows.len() as int);
    lemma_column_of(cols, e);
    lemma_positions_full(cols, frames, index + 1);
    lemma_positions_prefix(cols, frames, index + 1, cols.len() as int);
    assert(positions(cols, frames, cols.len() as int)[index] == (index, position));
    let laid = layout(cols, frames, padded_offset(offset, stage), view, cols.len() as int);
    let asked = reshuffle_targets(windows, display, cols, stage, e).unwrap()[t];
    lemma_targets_item(laid, cols, frames, h_pads, stage, laid.len() as int, t);
    let s = choose|s: int|
        0 <= s < laid.len() && frames.contains_key(laid[s].0) && asked == #[trigger] asked_of(
            laid,
            cols,
            frames,
            h_pads,
            stage,
            s,
        );
    assert(laid[s].0 == e);
    lemma_layout_item(cols, frames, padded_offset(offset, stage), view, cols.len() as int, s);
    let i = choose|i: int|
        i < cols.len() && #[trigger] laid_at(
            cols,
            frames,
            padded_offset(offset, stage),
            view,
            i,
            laid[s],
        );
    assert(cols[i].contains(e));
    assert(i == index) by {
        if i < index {
            assert(!cols[index].contains(e));
        }
        if index < i {
            assert(!cols[i].contains(e));
        }
    }
    lemma_anchor_keeps_exposed(position, x as int, stage, width);
    let frame = laid[s].1;
    assert(frames[cols[index][0]].valid());
    assert(width >= 0);
    assert(frame.min.x == x - stage.display.min.x - stage.padding.left);
    assert(frame.max.x == x - stage.display.min.x - stage.padding.left + width);
    assert(on_display_x(frame, stage) == (x as int, x + width));
    lemma_placed_in_view(
        frame,
        crate::systems::h_pad_of(h_pads, e),
        is_stacked(cols, e),
        stage,
    );
}

/// Where a window is going to start horizontally on the display known as
/// `id`: where it is asked to move on that display, and else where it
/// is.
pub open spec fn intended_x(entry: WindowEntry, id: DisplayId) -> int {
    if entry.reposition.is_some() && entry.reposition.unwrap().display_id == id {
        entry.reposition.unwrap().origin.x as int
    } else {
        entry.window.frame.min.x as int
    }
}

/// What is asked of one window leaves every other window as it is, and
/// the window itself with what it was asked before where nothing new is
/// asked.
proof fn lemma_with_one_target(
    windows: Seq<WindowEntry>,
    target: Target,
    id: DisplayId,
    e: Entity,
)
    requires
        has_window(windows, e),
    ensures
        ({
            let after = with_target(windows, target, id);
            let entry = entry_of(windows, e);
            &&& has_window(after, e)
            &&& entry_of(after, e).reshuffle == entry.reshuffle
            &&& entry_of(after, e).window == entry.window
            &&& target.entity != e ==> entry_of(after, e) == entry
            &&& target.entity == e ==> intended_x(entry_of(after, e), id) == (
            match target.reposition {
                Some(origin) => origin.x as int,
                None => intended_x(entry, id),
            })
        }),
{
    lemma_window_index(windows, e);
    lemma_window_index(windows, target.entity);
    let sized = match target.resize {
        Some(size) => resized(windows, target.entity, size, id),
        None => windows,
    };
    assert forall|i: int| 0 <= i < windows.len() implies windows[i].entity
        == sized[i].entity by {}
    lemma_same_entities_index(windows, sized, e);
    lemma_same_entities_index(windows, sized, target.entity);
    let after = with_target(windows, target, id);
    assert forall|i: int| 0 <= i < windows.len() implies windows[i].entity
        == after[i].entity by {}
    lemma_same_entities_index(windows, after, e);
}

/// After a row of requests, a window that was asked to start at `x`
/// whenever it was asked to move, and was going to start there where it
/// was asked and not to move, is going to start at `x`, if anything was
/// asked of it.
proof fn lemma_with_targets_intent(
    windows: Seq<WindowEntry>,
    targets: Seq<Target>,
    id: DisplayId,
    e: Entity,
    x: int,
    k: int,
)
    requires
        has_window(windows, e),
        0 <= k <= targets.len(),
        forall|t: int|
            0 <= t < k && (#[trigger] targets[t]).entity == e ==> (match targets[t].reposition {
                Some(origin) => origin.x == x,
                None => intended_x(entry_of(windows, e), id) == x,
            }),
    ensures
        ({
            let after = with_targets(windows, targets, id, k);
            &&& has_window(after, e)
            &&& entry_of(after, e).reshuffle == entry_of(windows, e).reshuffle
            &&& entry_of(after, e).window == entry_of(windows, e).window
            &&& intended_x(entry_of(after, e), id) == x || (intended_x(entry_of(after, e), id)
                == intended_x(entry_of(windows, e), id) && forall|t: int|
                0 <= t < k ==> (#[trigger] targets[t]).entity != e)
        }),
    decreases k,
{
    if k > 0 {
        lemma_with_targets_intent(windows, targets, id, e, x, k - 1);
        let before = with_targets(windows, targets, id, k - 1);
        lemma_with_one_target(before, targets[k - 1], id, e);
    }
}

/// The layout passes leave a window that asks for none as they find it,
/// but for what the passes for others ask of it.
proof fn lemma_reshuffle_steps_one(
    windows: Seq<WindowEntry>,
    seen: Seq<WindowEntry>,
    display: DisplayEntry,
    cols: Seq<Seq<Entity>>,
    stage: Stage,
    m: int,
    k: int,
)
    requires
        0 <= k <= seen.len(),
        0 <= m < seen.len(),
        forall|i: int| 0 <= i < seen.len() && i != m ==> (#[trigger] seen[i]).reshuffle.is_none(),
        seen[m].reshuffle.is_some(),
    ensures
        reshuffle_steps(windows, seen, display, cols, stage, k) == (if k <= m {
            let cleared = crate::world::unmarked_for_reshuffle(windows, seen[m].entity);
            match reshuffle_targets(seen, display, cols, stage, seen[m].entity) {
                Some(targets) => with_targets(
                    cleared,
                    targets,
                    display.display.id(),
                    targets.len() as int,
                ),
                None => cleared,
            }
        } else {
            windows
        }),
    decreases seen.len() - k,
{
    if k < seen.len() {
        if k == m {
            let e = seen[m].entity;
            let cleared = crate::world::unmarked_for_reshuffle(windows, e);
            let next = match reshuffle_targets(seen, display, cols, stage, e) {
                Some(targets) => with_targets(
                    cleared,
                    targets,
                    display.display.id(),
                    targets.len() as int,
                ),
                None => cleared,
            };
            lemma_reshuffle_steps_one(next, seen, display, cols, stage, m, k + 1);
        } else {
            lemma_reshuffle_steps_one(windows, seen, display, cols, stage, m, k + 1);
        }
    }
}

/// After the layout pass around a window, the window is going to start
/// where it was brought into view, and asks for a pass no longer; the
/// strips are as they were. This holds where the window is the only one
/// that asks for a pass, the pass asks something of it, the frames of
/// the columns up to the window's are known, the column is not held at
/// an edge of the viewport and shows more than the threshold, and the
/// arithmetic stays within `i32`.
pub proof fn lemma_reshuffled_exposes(w: WorldView, m: int)
    requires
        w.countable(),
        w.active().is_some(),
        entities_unique(w.windows),
        0 <= m < w.windows.len(),
        forall|i: int|
            0 <= i < w.windows.len() && i != m ==> (#[trigger] w.windows[i]).reshuffle.is_none(),
        w.windows[m].reshuffle.is_some(),
        ({
            let active = w.active().unwrap();
            let display = w.displays[active.display as int];
            let cols = w.workspaces[active.strip as int].cols;
            let stage = w.stage(active.display as int);
            let e = w.windows[m].entity;
            let frames = frames_of(w.windows, display.display.id(), w.windows.len() as int);
            let x = exposed_window(w.windows, display, stage, e).min.x;
            let index = column_of(cols, e);
            let width = column_width(cols[index], frames);
            let anchor = anchor_offset(
                extent(cols, frames, index),
                x as int,
                stage.display.min.x as int,
            );
            &&& columns_disjoint(cols)
            &&& reshuffle_targets(w.windows, display, cols, stage, e).is_some()
            &&& exists|t: int|
                0 <= t < reshuffle_targets(w.windows, display, cols, stage, e).unwrap().len()
                    && (#[trigger] reshuffle_targets(
                    w.windows,
                    display,
                    cols,
                    stage,
                    e,
                ).unwrap()[t]).entity == e
            &&& forall|j: int| 0 <= j <= index ==> framed(#[trigger] cols[j], frames)
            &&& fits_i32(anchor)
            &&& fits_i32(anchor + stage.padding.left)
            &&& stage.spec_viewport().min.x + WINDOW_HIDDEN_THRESHOLD - width <= x
                - stage.display.min.x - stage.padding.left <= stage.spec_viewport().spec_width()
                - WINDOW_HIDDEN_THRESHOLD
            &&& fits_i32(x - stage.padding.left)
            &&& fits_i32(x + width)
            &&& fits_i32(x + width - stage.padding.left)
            &&& !off_screen((x as int, x + width), stage)
        }),
    ensures
        ({
            let active = w.active().unwrap();
            let display = w.displays[active.display as int];
            let stage = w.stage(active.display as int);
            let e = w.windows[m].entity;
            let after = w.reshuffled();
            &&& after.workspaces == w.workspaces
            &&& has_window(after.windows, e)
            &&& entry_of(after.windows, e).reshuffle.is_none()
            &&& entry_of(after.windows, e).window == w.windows[m].window
            &&& intended_x(entry_of(after.windows, e), display.display.id()) == exposed_window(
                w.windows,
                display,
                stage,
                e,
            ).min.x
        }),
{
    let active = w.active().unwrap();
    crate::world::lemma_active_in_range(w);
    let display = w.displays[active.display as int];
    let cols = w.workspaces[active.strip as int].cols;
    let stage = w.stage(active.display as int);
    let id = display.display.id();
    let e = w.windows[m].entity;
    let x = exposed_window(w.windows, display, stage, e).min.x;
    let frames = frames_of(w.windows, id, w.windows.len() as int);
    let targets = reshuffle_targets(w.windows, display, cols, stage, e).unwrap();
    lemma_index_of_unique(w.windows, m);
    lemma_reshuffle_steps_one(w.windows, w.windows, display, cols, stage, m, 0);
    let cleared = crate::world::unmarked_for_reshuffle(w.windows, e);
    lemma_put(w.windows, e, WindowEntry { reshuffle: None, ..entry_of(w.windows, e) });
    lemma_frame_of(w.windows, id, w.windows.len() as int, m);
    assert forall|t: int| 0 <= t < targets.len() && (#[trigger] targets[t]).entity == e implies (
    match targets[t].reposition {
        Some(origin) => origin.x == x,
        None => intended_x(entry_of(cleared, e), id) == x,
    }) by {
        lemma_pass_exposes(w.windows, display, cols, stage, e, t);
    }
    lemma_with_targets_intent(cleared, targets, id, e, x as int, targets.len() as int);
}

/// The frame that a window is going to have starts where the window is
/// going to start, where the window is the first of its entity.
proof fn lemma_frame_of(windows: Seq<WindowEntry>, id: DisplayId, k: int, m: int)
    requires
        entities_unique(windows),
        0 <= m < windows.len(),
        0 <= k <= windows.len(),
    ensures
        frames_of(windows, id, k).contains_key(windows[m].entity) ==> m < k && frames_of(
            windows,
            id,
            k,
        )[windows[m].entity].min.x == intended_x(windows[m], id),
    decreases k,
{
    if k > 0 {
        lemma_frame_of(windows, id, k - 1, m);
    }
}

} // verus!
