//! The commands a user can give, and what each one means for a strip.

use vstd::prelude::*;
use crate::ecs::{
    Event, FocusFollowsMouse, FullWidthMarker, SendMessageTrigger, Unmanaged, WMEventTrigger,
};
use crate::geometry::{fits_i32, half, IRect, IVec2, Origin};
use crate::layout::{
    at_or_last_of, column_of, first_index, holds, is_column_of, lemma_column_of,
    flattened, lemma_first_index, moved_column, neighbour, removed, stacked, unstacked,
    Column, Entity, LayoutStrip, WorkspaceId,
};
use crate::ratio::{saturate, saturated, Ratio, RATIO_ONE};
use crate::systems::{is_stacked, point};
use crate::triggers::{
    center_frame_origin, center_origin, centered_frame_origin, centered_origin, focus_of,
    sum_fits, Effect,
};
use crate::world::{
    entry_of, first_focused, has_window, marked_for_reshuffle, next_display, repositioned,
    resized, with_window, Active, WindowEntry, WorkspaceView, World, WorldView,
};

verus! {

/// Where to go from the focused window.
#[derive(Clone, Copy, Debug, PartialEq, Eq, Structural)]
pub enum Direction {
    North,
    South,
    West,
    East,
    First,
    Last,
}

/// What to do with the focused window.
#[derive(Clone, Copy, Debug, PartialEq, Eq, Structural)]
pub enum Operation {
    /// Move the focus to the window in that direction.
    Focus(Direction),
    /// Exchange the focused window with the one in that direction.
    Swap(Direction),
    /// Center the focused window on the display.
    Center,
    /// Give the focused window the next of the preset widths.
    Resize,
    /// Make the focused window as wide as the display, or undo that.
    FullWidth,
    /// Move the focused window to the other display.
    ToNextDisplay,
    /// Give all windows of the focused stack the same height.
    Equalize,
    /// Take the focused window out of the tiling, or back into it.
    Manage,
    /// Stack the focused window onto its left neighbour (`true`) or take it
    /// out of its stack (`false`).
    Stack(bool),
}

/// What to do with the mouse pointer.
#[derive(Clone, Copy, Debug, PartialEq, Eq, Structural)]
pub enum MouseMove {
    /// Move the pointer to the other display.
    ToNextDisplay,
}

/// A command to the window manager.
#[derive(Clone, Copy, Debug, PartialEq, Eq, Structural)]
pub enum Command {
    Window(Operation),
    Mouse(MouseMove),
    Quit,
    PrintState,
}

/// The window reached from `e` by going in `direction`.
///
/// West and East lead to the neighbour in the adjacent column, First and
/// Last to the top window of the first and of the last column, North and
/// South to the window above and below in the same stack. There is none
/// where the strip does not hold `e`.
pub open spec fn window_in_direction(cols: Seq<Seq<Entity>>, direction: Direction, e: Entity)
    -> Option<Entity> {
    let i = column_of(cols, e);
    let height = first_index(cols[i], e);
    if !holds(cols, e) {
        None
    } else {
        match direction {
            Direction::West => neighbour(cols, e, -1),
            Direction::East => neighbour(cols, e, 1),
            Direction::First => if cols[0].len() > 0 {
                Some(cols[0][0])
            } else {
                None
            },
            Direction::Last => if cols.last().len() > 0 {
                Some(cols.last()[0])
            } else {
                None
            },
            Direction::North => if cols[i].len() >= 2 && height > 0 {
                Some(cols[i][height - 1])
            } else {
                None
            },
            Direction::South => if cols[i].len() >= 2 && height + 1 < cols[i].len() {
                Some(cols[i][height + 1])
            } else {
                None
            },
        }
    }
}

/// Finds the window that lies in `direction` of `entity` in `strip`.
pub fn get_window_in_direction(direction: &Direction, entity: Entity, strip: &LayoutStrip) -> (r:
    Option<Entity>)
    requires
        strip.wf(),
    ensures
        r == window_in_direction(strip@, *direction, entity),
{
    let index = match strip.index_of(entity) {
        Ok(index) => index,
        Err(_) => {
            return None;
        },
    };
    proof {
        lemma_column_of(strip@, entity);
        lemma_first_index(strip@[index as int], entity);
    }
    match direction {
        Direction::West => strip.left_neighbour(entity),
        Direction::East => strip.right_neighbour(entity),
        Direction::First => match strip.first() {
            Ok(column) => column.top(),
            Err(_) => None,
        },
        Direction::Last => match strip.last() {
            Ok(column) => column.top(),
            Err(_) => None,
        },
        Direction::North => match strip.get(index) {
            Ok(Column::Stack(stack)) => {
                let column = Column::Stack(stack);
                match column.position_of(entity) {
                    Some(height) => if height > 0 {
                        Some(column.window_at(height - 1))
                    } else {
                        None
                    },
                    None => None,
                }
            },
            _ => None,
        },
        Direction::South => match strip.get(index) {
            Ok(Column::Stack(stack)) => {
                let column = Column::Stack(stack);
                match column.position_of(entity) {
                    Some(height) => if height + 1 < column.count() {
                        Some(column.window_at(height + 1))
                    } else {
                        None
                    },
                    None => None,
                }
            },
            _ => None,
        },
    }
}

/// Whether going in `direction` where there is no window that way leads
/// to the other display: north does where the other display lies higher,
/// south where it lies lower.
pub open spec fn leads_to_other_display(direction: Direction, active: IRect, other: IRect)
    -> bool {
    match direction {
        Direction::North => active.min.y > other.min.y,
        Direction::South => active.min.y < other.min.y,
        _ => false,
    }
}

/// Whether one of `displays` that is not the active one lies in
/// `direction` of a display with the bounds `active`.
pub open spec fn lies_beyond(displays: Seq<crate::world::DisplayEntry>, direction: Direction, active: IRect)
    -> bool {
    exists|j: int|
        0 <= j < displays.len() && (#[trigger] displays[j]).active.is_none()
            && leads_to_other_display(direction, active, displays[j].display.bounds())
}

fn leads_away(direction: &Direction, active: IRect, other: IRect) -> (r: bool)
    ensures
        r == leads_to_other_display(*direction, active, other),
{
    match direction {
        Direction::North => active.min.y > other.min.y,
        Direction::South => active.min.y < other.min.y,
        _ => false,
    }
}

impl WorldView {
    /// The window in `direction` of the focused window in the active
    /// strip.
    pub open spec fn in_direction(self, direction: Direction) -> Option<Entity> {
        match (self.active(), focus_of(self.windows)) {
            (Some(active), Some(focus)) => window_in_direction(
                self.workspaces[active.strip as int].cols,
                direction,
                focus,
            ),
            _ => None,
        }
    }

    /// Whether going in `direction` leads to another display: whether a
    /// display that is not the active one lies that way of the active
    /// one.
    pub open spec fn leaves_display(self, direction: Direction) -> bool {
        self.active().is_some() && lies_beyond(
            self.displays,
            direction,
            self.displays[self.active().unwrap().display as int].display.bounds(),
        )
    }

    /// The model after the focus was asked to move in `direction`: the
    /// window that way is asked to be brought into view.
    pub open spec fn focus_moved(self, direction: Direction) -> WorldView {
        match self.in_direction(direction) {
            Some(next) => WorldView { windows: marked_for_reshuffle(self.windows, next), ..self },
            None => self,
        }
    }

    /// What the outside is asked when the focus is asked to move in
    /// `direction`: to focus and raise the window that way, where it is
    /// known; and where there is no window that way but another display,
    /// to send the mouse there.
    pub open spec fn focus_moved_effects(self, direction: Direction) -> Seq<Effect> {
        match self.in_direction(direction) {
            Some(next) => if has_window(self.windows, next) {
                seq![Effect::FocusWithRaise(next)]
            } else {
                Seq::empty()
            },
            None => if focus_of(self.windows).is_some() && self.leaves_display(direction) {
                seq![
                    Effect::Send(
                        SendMessageTrigger(
                            Event::Command { command: Command::Mouse(MouseMove::ToNextDisplay) },
                        ),
                    ),
                ]
            } else {
                Seq::empty()
            },
        }
    }

    /// The model after the focused window was asked to be stacked onto its
    /// left neighbour (`stack`) or to leave its stack (not `stack`).
    /// Nothing happens unless the focused window is managed.
    pub open spec fn stacked(self, stack: bool) -> WorldView {
        match (self.active(), focus_of(self.windows)) {
            (Some(active), Some(focus)) if has_window(self.windows, focus) && entry_of(
                self.windows,
                focus,
            ).unmanaged.is_none() => {
                let cols = self.workspaces[active.strip as int].cols;
                let changed = if !holds(cols, focus) {
                    self
                } else if stack {
                    self.with_cols(active.strip as int, stacked(cols, focus))
                } else {
                    self.with_cols(active.strip as int, unstacked(cols, focus))
                };
                WorldView { windows: marked_for_reshuffle(self.windows, focus), ..changed }
            },
            _ => self,
        }
    }

    /// The model after the focused window was asked to be centered: it is
    /// asked to move to the middle of the active display and to be
    /// brought into view.
    pub open spec fn centered(self) -> WorldView {
        match (self.active(), focus_of(self.windows)) {
            (Some(active), Some(focus)) => {
                let display = self.displays[active.display as int].display;
                let entry = self.windows[first_focused(self.windows)];
                let moved = match centered_frame_origin(display.bounds(), entry.window.frame) {
                    Some(origin) => repositioned(self.windows, focus, origin, display.id()),
                    None => self.windows,
                };
                WorldView { windows: marked_for_reshuffle(moved, focus), ..self }
            },
            _ => self,
        }
    }

    /// What the outside is asked when the focused window is centered: to
    /// put the mouse in the middle of the active display.
    pub open spec fn centered_effects(self) -> Seq<Effect> {
        match (self.active(), focus_of(self.windows)) {
            (Some(active), Some(focus)) => seq![
                Effect::CenterMouse {
                    on: None,
                    bounds: self.displays[active.display as int].display.bounds(),
                },
            ],
            _ => Seq::empty(),
        }
    }

    /// What is announced when the focused window leaves the tiling.
    pub open spec fn manage_toggled_event(self) -> Option<Effect> {
        match focus_of(self.windows) {
            Some(focus) if has_window(self.windows, focus) && entry_of(
                self.windows,
                focus,
            ).unmanaged.is_none() => self.with_unmanaged_event(focus, Unmanaged::Floating),
            _ => None,
        }
    }

    /// The model after the focused window was asked to leave the tiling,
    /// or to return to it.
    pub open spec fn manage_toggled(self) -> WorldView {
        match focus_of(self.windows) {
            Some(focus) if has_window(self.windows, focus) => {
                let toggled = if entry_of(self.windows, focus).unmanaged.is_some() {
                    self.without_unmanaged(focus)
                } else {
                    self.with_unmanaged(focus, Unmanaged::Floating)
                };
                WorldView { windows: marked_for_reshuffle(toggled.windows, focus), ..toggled }
            },
            _ => self,
        }
    }
}

impl World {
    /// Moves the focus to the window in `direction` of the focused one.
    pub fn command_move_focus(&mut self, direction: &Direction) -> (r: Vec<Effect>)
        requires
            old(self).wf(),
        ensures
            final(self).wf(),
            final(self)@ == old(self)@.focus_moved(*direction),
            r@ == old(self)@.focus_moved_effects(*direction),
    {
        let mut told: Vec<Effect> = Vec::new();
        let active = match self.active() {
            Some(active) => active,
            None => {
                return told;
            },
        };
        let focus = match self.windows.focused() {
            Some(entry) => entry.entity,
            None => {
                return told;
            },
        };
        assert(self@.workspaces[active.strip as int] == self.workspaces@[active.strip as int]@);
        match get_window_in_direction(direction, focus, &self.workspaces[active.strip].strip) {
            Some(next) => {
                if self.windows.get(next).is_some() {
                    told.push(Effect::FocusWithRaise(next));
                }
                self.windows.reshuffle_around(next);
            },
            None => {
                if self.display_beyond(direction, self.displays[active.display].display.bounds()) {
                    told.push(
                        Effect::Send(
                            SendMessageTrigger(
                                Event::Command {
                                    command: Command::Mouse(MouseMove::ToNextDisplay),
                                },
                            ),
                        ),
                    );
                }
            },
        }
        told
    }

    /// Stacks the focused window onto its left neighbour, or takes it out
    /// of its stack.
    pub fn stack_windows_handler(&mut self, stack: bool)
        requires
            old(self).wf(),
        ensures
            final(self).wf(),
            final(self)@ == old(self)@.stacked(stack),
    {
        let active = match self.active() {
            Some(active) => active,
            None => {
                return ;
            },
        };
        let entry = match self.windows.focused() {
            Some(entry) => entry,
            None => {
                return ;
            },
        };
        let managed = match self.windows.get_managed(entry.entity) {
            Some(now) => now.unmanaged.is_none(),
            None => false,
        };
        if !managed {
            return ;
        }
        let mut taken = LayoutStrip::new(0);
        assert(self.workspaces@[active.strip as int].strip.wf());
        assert(self@.workspaces[active.strip as int] == self.workspaces@[active.strip as int]@);
        std::mem::swap(&mut self.workspaces[active.strip].strip, &mut taken);
        let done = if stack {
            taken.stack(entry.entity)
        } else {
            taken.unstack(entry.entity)
        };
        std::mem::swap(&mut self.workspaces[active.strip].strip, &mut taken);
        proof {
            self.lemma_strip_changed(old(self), active.strip as int);
            if done.is_err() {
                assert(self@.workspaces =~= old(self)@.workspaces);
            }
        }
        self.windows.reshuffle_around(entry.entity);
    }

    /// Centers the focused window on the active display.
    pub fn command_center_window(&mut self) -> (r: Vec<Effect>)
        requires
            old(self).wf(),
        ensures
            final(self).wf(),
            final(self)@ == old(self)@.centered(),
            r@ == old(self)@.centered_effects(),
    {
        let mut told: Vec<Effect> = Vec::new();
        let active = match self.active() {
            Some(active) => active,
            None => {
                return told;
            },
        };
        let entry = match self.windows.focused() {
            Some(entry) => entry,
            None => {
                return told;
            },
        };
        let display = self.displays[active.display].display;
        if let Some(origin) = center_frame_origin(display.bounds(), &entry.window.frame) {
            self.windows.reposition_entity(entry.entity, origin, display.id());
        }
        told.push(Effect::CenterMouse { on: None, bounds: display.bounds() });
        self.windows.reshuffle_around(entry.entity);
        told
    }

    /// Takes the focused window out of the tiling, or back into it.
    pub fn manage_window(&mut self) -> (r: Option<Effect>)
        requires
            old(self).wf(),
        ensures
            final(self).wf(),
            final(self)@ == old(self)@.manage_toggled(),
            r == old(self)@.manage_toggled_event(),
    {
        let entry = match self.windows.focused() {
            Some(entry) => entry,
            None => {
                return None;
            },
        };
        let now = match self.windows.get_managed(entry.entity) {
            Some(now) => now,
            None => {
                return None;
            },
        };
        let effect = if now.unmanaged.is_some() {
            self.remove_unmanaged(entry.entity);
            None
        } else {
            self.insert_unmanaged(entry.entity, Unmanaged::Floating)
        };
        self.windows.reshuffle_around(entry.entity);
        effect
    }
}

/// A window is taken to be this much wider than it is when the next
/// preset width is looked for, in millionths of the padded width.
pub const RESIZE_MARGIN: i32 = 50_000;

/// The preset `preset` is wider than a window of the width `width` on a
/// display of the padded width `padded`, by more than the margin.
pub open spec fn wider(preset: Ratio, width: int, padded: int) -> bool {
    preset.ppm() * padded > width * RATIO_ONE + RESIZE_MARGIN * padded
}

/// The first of the presets from the `from`-th on that is wider than the
/// window, if any.
pub open spec fn next_wider(presets: Seq<Ratio>, width: int, padded: int, from: int) -> Option<
    Ratio,
>
    decreases presets.len() - from,
{
    if from < 0 || from >= presets.len() {
        None
    } else if wider(presets[from], width, padded) {
        Some(presets[from])
    } else {
        next_wider(presets, width, padded, from + 1)
    }
}

/// The width that resizing gives a window next, as a fraction of the
/// padded width: the first preset that is wider than the window by more
/// than the margin; failing that the first preset; and a half where
/// there are no presets. On a display without padded width the first
/// preset counts.
pub open spec fn next_ratio(presets: Seq<Ratio>, width: int, padded: int) -> Ratio {
    let found = if padded > 0 {
        next_wider(presets, width, padded, 0)
    } else {
        None
    };
    match found {
        Some(r) => r,
        None => if presets.len() > 0 {
            presets[0]
        } else {
            Ratio(500_000)
        },
    }
}

/// Picks the width that resizing gives a window next.
pub fn pick_ratio(presets: &Vec<Ratio>, width: i32, padded: i32) -> (r: Ratio)
    ensures
        r == next_ratio(presets@, width as int, padded as int),
{
    if padded > 0 {
        let mut i: usize = 0;
        while i < presets.len()
            invariant
                i <= presets.len(),
                padded > 0,
                next_wider(presets@, width as int, padded as int, 0) == next_wider(
                    presets@,
                    width as int,
                    padded as int,
                    i as int,
                ),
            decreases presets.len() - i,
        {
            let preset = presets[i];
            assert(-0x8000_0000 * 0x8000_0000 <= preset.0 * padded <= 0x8000_0000 * 0x8000_0000
                && -0x8000_0000 * 0x8000_0000 <= width * 1_000_000 <= 0x8000_0000 * 0x8000_0000
                && 0 <= 50_000 * padded <= 0x8000_0000 * 0x8000_0000) by (nonlinear_arith)
                requires
                    -0x8000_0000 <= preset.0 <= 0x7fff_ffff,
                    0 < padded <= 0x7fff_ffff,
                    -0x8000_0000 <= width <= 0x7fff_ffff,
            ;
            if preset.0 as i64 * padded as i64 > width as i64 * 1_000_000 + 50_000
                * padded as i64 {
                return preset;
            }
            i += 1;
        }
    }
    if presets.len() > 0 {
        presets[0]
    } else {
        Ratio(500_000)
    }
}

/// The area of a rectangle.
pub open spec fn area(r: IRect) -> int {
    r.spec_width() * r.spec_height()
}

/// The window of the first `k` of `stack` that shows the largest area
/// within `bounds`, the earlier of two that show the same; with how much
/// it shows. Windows that are not known are passed over.
pub open spec fn most_visible(
    windows: Seq<WindowEntry>,
    stack: Seq<Entity>,
    bounds: IRect,
    k: int,
) -> Option<(Entity, int)>
    decreases k,
{
    if k <= 0 {
        None
    } else {
        let before = most_visible(windows, stack, bounds, k - 1);
        let e = stack[k - 1];
        if !has_window(windows, e) {
            before
        } else {
            let shown = area(overlap_of(bounds, entry_of(windows, e).window.frame));
            match before {
                Some((_, best)) if best >= shown => before,
                _ => Some((e, shown)),
            }
        }
    }
}

/// The common part of two rectangles, collapsed onto the smaller of the
/// two bottom-right corners where they do not meet.
pub open spec fn overlap_of(a: IRect, b: IRect) -> IRect {
    let max_x = crate::geometry::spec_min(a.max.x as int, b.max.x as int);
    let max_y = crate::geometry::spec_min(a.max.y as int, b.max.y as int);
    IRect {
        min: IVec2 {
            x: crate::geometry::spec_min(
                crate::geometry::spec_max(a.min.x as int, b.min.x as int),
                max_x,
            ) as i32,
            y: crate::geometry::spec_min(
                crate::geometry::spec_max(a.min.y as int, b.min.y as int),
                max_y,
            ) as i32,
        },
        max: IVec2 { x: max_x as i32, y: max_y as i32 },
    }
}

fn overlap(a: &IRect, b: IRect) -> (r: IRect)
    ensures
        r == overlap_of(*a, b),
{
    a.intersect(b)
}

impl WorldView {
    /// The padded width of the display at `display`: its width without
    /// the padding at its sides.
    pub open spec fn padded_width(self, display: int) -> int {
        saturated(
            saturated(self.displays[display].display.bounds().spec_width())
                - self.config.edge_padding().left - self.config.edge_padding().right,
        )
    }

    /// The model after the focused window was exchanged with the window
    /// in `direction` of it.
    ///
    /// The focused window's column takes the place of the other window's
    /// column, and the columns between move up by one. The focused window
    /// is asked to move to the left edge where it becomes the first
    /// column, to the right edge where it becomes the last, and else to
    /// where the top window of the column was whose place it takes; and
    /// it is asked to be brought into view. Nothing happens where there is
    /// no such window, or the top window of that column is not known.
    pub open spec fn swapped(self, direction: Direction) -> WorldView {
        match (self.active(), focus_of(self.windows)) {
            (Some(active), Some(focus)) => {
                let cols = self.workspaces[active.strip as int].cols;
                let display = self.displays[active.display as int].display;
                let other = window_in_direction(cols, direction, focus);
                if other.is_none() || !holds(cols, other.unwrap()) || !has_window(
                    self.windows,
                    focus,
                ) {
                    self
                } else {
                    let from = column_of(cols, focus);
                    let to = column_of(cols, other.unwrap());
                    let frame = entry_of(self.windows, focus).window.frame;
                    let origin = if to == 0 {
                        Some(IVec2 { x: 0, y: 0 })
                    } else if to == cols.len() - 1 {
                        Some(
                            point(
                                saturated(display.bounds().spec_width()) - saturated(
                                    frame.spec_width(),
                                ),
                                0,
                            ),
                        )
                    } else if cols[to].len() > 0 && has_window(self.windows, cols[to][0]) {
                        Some(entry_of(self.windows, cols[to][0]).window.frame.min)
                    } else {
                        None
                    };
                    match origin {
                        None => self,
                        Some(origin) => WorldView {
                            windows: marked_for_reshuffle(
                                repositioned(self.windows, focus, origin, display.id()),
                                focus,
                            ),
                            ..self.with_cols(active.strip as int, moved_column(cols, from, to))
                        },
                    }
                }
            },
            _ => self,
        }
    }

    /// What the outside is asked after the exchange: where there is no
    /// window in `direction` of the focused one afterwards, and going that
    /// way leads to the other display, to queue the command that moves the
    /// window there.
    pub open spec fn swapped_effects(self, direction: Direction) -> Seq<Effect> {
        match (self.active(), focus_of(self.windows)) {
            (Some(active), Some(focus)) => {
                let after = self.swapped(direction).workspaces[active.strip as int].cols;
                if window_in_direction(after, direction, focus).is_none() && self.leaves_display(
                    direction,
                ) {
                    seq![
                        Effect::Send(
                            SendMessageTrigger(
                                Event::Command {
                                    command: Command::Window(Operation::ToNextDisplay),
                                },
                            ),
                        ),
                    ]
                } else {
                    Seq::empty()
                }
            },
            _ => Seq::empty(),
        }
    }

    /// The model after the windows of the focused window's stack were
    /// asked to take the same height: each an equal share of the height
    /// of the display, rounded toward zero, at the width it has. The
    /// focused window is asked to be brought into view. A single window
    /// is only asked to be brought into view. Nothing happens where the
    /// strip does not hold the focused window.
    pub open spec fn equalized(self) -> WorldView {
        match (self.active(), focus_of(self.windows)) {
            (Some(active), Some(focus)) => {
                let cols = self.workspaces[active.strip as int].cols;
                let display = self.displays[active.display as int].display;
                if !holds(cols, focus) {
                    self
                } else {
                    let stack = cols[column_of(cols, focus)];
                    let sized = if stack.len() >= 2 && stack.len() <= i32::MAX {
                        equal_heights(
                            self.windows,
                            stack,
                            crate::ratio::toward_zero(
                                saturated(display.bounds().spec_height()),
                                stack.len() as int,
                            ),
                            display.id(),
                            stack.len() as int,
                        )
                    } else {
                        self.windows
                    };
                    WorldView { windows: marked_for_reshuffle(sized, focus), ..self }
                }
            },
            _ => self,
        }
    }
}

/// The windows after the first `k` windows of `stack` that are known were
/// asked to be `height` high at the width they have.
pub open spec fn equal_heights(
    windows: Seq<WindowEntry>,
    stack: Seq<Entity>,
    height: int,
    display_id: crate::ecs::DisplayId,
    k: int,
) -> Seq<WindowEntry>
    decreases k,
{
    if k <= 0 {
        windows
    } else {
        let before = equal_heights(windows, stack, height, display_id, k - 1);
        let e = stack[k - 1];
        if has_window(before, e) {
            resized(
                before,
                e,
                point(saturated(entry_of(before, e).window.frame.spec_width()), height),
                display_id,
            )
        } else {
            before
        }
    }
}

impl World {
    /// Exchanges the focused window with the window in `direction`.
    pub fn command_swap_focus(&mut self, direction: &Direction) -> (r: Vec<Effect>)
        requires
            old(self).wf(),
        ensures
            final(self).wf(),
            final(self)@ == old(self)@.swapped(*direction),
            r@ == old(self)@.swapped_effects(*direction),
    {
        let mut told: Vec<Effect> = Vec::new();
        let active = match self.active() {
            Some(active) => active,
            None => {
                return told;
            },
        };
        let focus = match self.windows.focused() {
            Some(entry) => entry.entity,
            None => {
                return told;
            },
        };
        self.swap_columns(active, focus, direction);
        assert(self@.workspaces[active.strip as int] == self.workspaces@[active.strip as int]@);
        let after = get_window_in_direction(
            direction,
            focus,
            &self.workspaces[active.strip].strip,
        );
        if after.is_none() {
            if self.display_beyond(direction, self.displays[active.display].display.bounds()) {
                told.push(
                    Effect::Send(
                        SendMessageTrigger(
                            Event::Command { command: Command::Window(Operation::ToNextDisplay) },
                        ),
                    ),
                );
            }
        }
        told
    }

    fn swap_columns(&mut self, active: Active, focus: Entity, direction: &Direction)
        requires
            old(self).wf(),
            old(self)@.active() == Some(active),
            focus_of(old(self)@.windows) == Some(focus),
            active.strip < old(self).workspaces@.len(),
            active.display < old(self).displays@.len(),
        ensures
            final(self).wf(),
            final(self)@ == old(self)@.swapped(*direction),
            final(self).workspaces@.len() == old(self).workspaces@.len(),
            final(self).displays@ == old(self).displays@,
    {
        assert(self@.workspaces[active.strip as int] == self.workspaces@[active.strip as int]@);
        assert(self.workspaces@[active.strip as int].strip.wf());
        let display = self.displays[active.display].display;
        let strip = &self.workspaces[active.strip].strip;
        let from = match strip.index_of(focus) {
            Ok(index) => index,
            Err(_) => {
                return ;
            },
        };
        let other = match get_window_in_direction(direction, focus, strip) {
            Some(other) => other,
            None => {
                return ;
            },
        };
        let to = match strip.index_of(other) {
            Ok(index) => index,
            Err(_) => {
                return ;
            },
        };
        let current = match self.windows.get(focus) {
            Some(window) => window,
            None => {
                return ;
            },
        };
        let origin = if to == 0 {
            IVec2 { x: 0, y: 0 }
        } else if to == strip.len() - 1 {
            IVec2 { x: saturate(display.width() as i64 - current.width() as i64), y: 0 }
        } else {
            let top = match strip.get(to) {
                Ok(column) => column.top(),
                Err(_) => None,
            };
            let place = match top {
                Some(e) => self.windows.get(e),
                None => None,
            };
            match place {
                Some(window) => window.frame.min,
                None => {
                    return ;
                },
            }
        };
        self.windows.reposition_entity(focus, origin, display.id());
        let mut taken = LayoutStrip::new(0);
        std::mem::swap(&mut self.workspaces[active.strip].strip, &mut taken);
        taken.move_column(from, to);
        std::mem::swap(&mut self.workspaces[active.strip].strip, &mut taken);
        self.windows.reshuffle_around(focus);
        proof {
            assert(self@.workspaces =~= old(self)@.with_cols(
                active.strip as int,
                self.workspaces@[active.strip as int].strip@,
            ).workspaces);
            assert forall|i: int| 0 <= i < self.workspaces@.len() implies (
            #[trigger] self.workspaces@[i]).strip.wf() by {
                if i != active.strip {
                    assert(self.workspaces@[i] == old(self).workspaces@[i]);
                }
            }
        }
    }
}

/// The frame of the extent `size` around the center of `frame`, as far
/// as it can be had: nothing where `size` is negative or the arithmetic
/// leaves the range of `i32`.
pub open spec fn recentered(frame: IRect, size: IVec2) -> Option<IRect> {
    let cx = half(frame.min.x + frame.max.x);
    let cy = half(frame.min.y + frame.max.y);
    if size.x >= 0 && size.y >= 0 && fits_i32(frame.min.x + frame.max.x) && fits_i32(
        frame.min.y + frame.max.y,
    ) && fits_i32(cx - size.x / 2) && fits_i32(cy - size.y / 2) && fits_i32(cx + size.x / 2)
        && fits_i32(cy + size.y / 2) {
        Some(
            IRect {
                min: IVec2 { x: (cx - size.x / 2) as i32, y: (cy - size.y / 2) as i32 },
                max: IVec2 { x: (cx + size.x / 2) as i32, y: (cy + size.y / 2) as i32 },
            },
        )
    } else {
        None
    }
}

fn recenter(frame: &IRect, size: IVec2) -> (r: Option<IRect>)
    ensures
        r == recentered(*frame, size),
{
    if size.x < 0 || size.y < 0 || !sum_fits(frame.min.x, frame.max.x) || !sum_fits(
        frame.min.y,
        frame.max.y,
    ) {
        return None;
    }
    let center = frame.center();
    let half_width = size.x / 2;
    let half_height = size.y / 2;
    if !crate::triggers::difference_fits(center.x, half_width)
        || !crate::triggers::difference_fits(center.y, half_height) || !sum_fits(
        center.x,
        half_width,
    ) || !sum_fits(center.y, half_height) {
        return None;
    }
    Some(IRect::from_center_size(center, size))
}

impl WorldView {
    /// The model after the focused window was asked to take the next of
    /// the preset widths.
    ///
    /// The new width is the next preset's share of the padded width of the
    /// display, rounded to the nearest pixel; the height stays. Where the
    /// window, given that width around its center, would reach past the
    /// padded right edge of the display, it is asked to move left so that
    /// it ends there. The window is asked to take the size and to be
    /// brought into view.
    pub open spec fn resized_to_preset(self) -> WorldView {
        match (self.active(), focus_of(self.windows)) {
            (Some(active), Some(focus)) => {
                let display = self.displays[active.display as int].display;
                let entry = self.windows[first_focused(self.windows)];
                let frame = entry.window.frame;
                let padded = self.padded_width(active.display as int);
                let width = saturated(frame.spec_width());
                let next = next_ratio(self.config.spec_options().preset_column_widths@, width, padded);
                let size = point(
                    saturated(next.spec_of_rounded(padded)),
                    saturated(frame.spec_height()),
                );
                let edge = display.bounds().max.x - self.config.edge_padding().right;
                let moved = match recentered(frame, size) {
                    Some(around) if around.max.x > edge => repositioned(
                        self.windows,
                        focus,
                        point(edge - size.x, around.min.y as int),
                        display.id(),
                    ),
                    _ => self.windows,
                };
                WorldView {
                    windows: marked_for_reshuffle(
                        resized(moved, focus, size, display.id()),
                        focus,
                    ),
                    ..self
                }
            },
            _ => self,
        }
    }

    /// The model after the focused window was taken to the other display.
    ///
    /// The window is asked to move to the top of the other display, in
    /// its middle horizontally, and to be brought into view, and so is its
    /// right neighbour in the active strip, which the window leaves.
    /// Nothing happens where the focused window is not managed or there
    /// is no other display.
    pub open spec fn moved_to_next_display(self) -> WorldView {
        let other = next_display(self.displays, false, 0);
        match (self.active(), focus_of(self.windows)) {
            (Some(active), Some(focus)) if has_window(self.windows, focus) && entry_of(
                self.windows,
                focus,
            ).unmanaged.is_none() && other < self.displays.len() => {
                let cols = self.workspaces[active.strip as int].cols;
                let target = self.displays[other].display;
                let frame = entry_of(self.windows, focus).window.frame;
                let dest = point(
                    half(target.bounds().min.x + target.bounds().max.x) - crate::ratio::toward_zero(
                        saturated(frame.spec_width()),
                        2,
                    ),
                    target.bounds().min.y as int,
                );
                let sent = marked_for_reshuffle(
                    repositioned(self.windows, focus, dest, target.id()),
                    focus,
                );
                let shown = match neighbour(cols, focus, 1) {
                    Some(right) => marked_for_reshuffle(sent, right),
                    None => sent,
                };
                (WorldView { windows: shown, ..self }).with_cols(
                    active.strip as int,
                    removed(cols, focus),
                )
            },
            _ => self,
        }
    }

    /// What the outside is asked when the focused window is taken to the
    /// other display: to put the mouse in the middle of that display.
    pub open spec fn moved_to_next_display_effects(self) -> Seq<Effect> {
        let other = next_display(self.displays, false, 0);
        match (self.active(), focus_of(self.windows)) {
            (Some(active), Some(focus)) if has_window(self.windows, focus) && entry_of(
                self.windows,
                focus,
            ).unmanaged.is_none() && other < self.displays.len() => seq![
                Effect::CenterMouse { on: None, bounds: self.displays[other].display.bounds() },
            ],
            _ => Seq::empty(),
        }
    }
}

impl World {
    /// Gives the focused window the next of the preset widths.
    pub fn resize_window(&mut self)
        requires
            old(self).wf(),
        ensures
            final(self).wf(),
            final(self)@ == old(self)@.resized_to_preset(),
    {
        let active = match self.active() {
            Some(active) => active,
            None => {
                return ;
            },
        };
        let entry = match self.windows.focused() {
            Some(entry) => entry,
            None => {
                return ;
            },
        };
        let display = self.displays[active.display].display;
        let padding = self.config.edge_padding();
        let padded = saturate(
            display.width() as i64 - padding.left as i64 - padding.right as i64,
        );
        let next = pick_ratio(self.config.preset_column_widths(), entry.window.width(), padded);
        let size = IVec2 { x: next.of_rounded(padded), y: entry.window.height() };
        let edge: i64 = display.bounds().max.x as i64 - padding.right as i64;
        if let Some(around) = recenter(&entry.window.frame, size) {
            if around.max.x as i64 > edge {
                self.windows.reposition_entity(
                    entry.entity,
                    IVec2 { x: saturate(edge - size.x as i64), y: around.min.y },
                    display.id(),
                );
            }
        }
        self.windows.resize_entity(entry.entity, size, display.id());
        self.windows.reshuffle_around(entry.entity);
    }

    /// Gives all windows of the focused window's stack the same height.
    pub fn equalize_column(&mut self)
        requires
            old(self).wf(),
        ensures
            final(self).wf(),
            final(self)@ == old(self)@.equalized(),
    {
        let active = match self.active() {
            Some(active) => active,
            None => {
                return ;
            },
        };
        let focus = match self.windows.focused() {
            Some(entry) => entry.entity,
            None => {
                return ;
            },
        };
        assert(self@.workspaces[active.strip as int] == self.workspaces@[active.strip as int]@);
        assert(self.workspaces@[active.strip as int].strip.wf());
        let display = self.displays[active.display].display;
        let strip = &self.workspaces[active.strip].strip;
        let column = match strip.index_of(focus) {
            Ok(index) => match strip.get(index) {
                Ok(column) => column,
                Err(_) => {
                    return ;
                },
            },
            Err(_) => {
                return ;
            },
        };
        if let Column::Stack(stack) = column {
            let n = stack.len();
            if n <= 0x7fff_ffff {
                let height = display.height() / (n as i32);
                let ghost start = self.windows@;
                let mut k: usize = 0;
                while k < n
                    invariant
                        k <= n,
                        n == stack@.len(),
                        self.wf(),
                        self@ == (WorldView { windows: self.windows@, ..old(self)@ }),
                        self.windows@ == equal_heights(
                            start,
                            stack@,
                            height as int,
                            display.id(),
                            k as int,
                        ),
                    decreases n - k,
                {
                    if let Some(window) = self.windows.get(stack[k]) {
                        self.windows.resize_entity(
                            stack[k],
                            IVec2 { x: window.width(), y: height },
                            display.id(),
                        );
                    }
                    k += 1;
                }
            }
        }
        self.windows.reshuffle_around(focus);
    }

    /// Takes the focused window to the other display.
    pub fn to_next_display(&mut self) -> (r: Vec<Effect>)
        requires
            old(self).wf(),
        ensures
            final(self).wf(),
            final(self)@ == old(self)@.moved_to_next_display(),
            r@ == old(self)@.moved_to_next_display_effects(),
    {
        let mut told: Vec<Effect> = Vec::new();
        let active = match self.active() {
            Some(active) => active,
            None => {
                return told;
            },
        };
        let focus = match self.windows.focused() {
            Some(entry) => entry.entity,
            None => {
                return told;
            },
        };
        let entry = match self.windows.get_managed(focus) {
            Some(entry) => entry,
            None => {
                return told;
            },
        };
        if entry.unmanaged.is_some() {
            return told;
        }
        let other = match self.other_display() {
            Some(other) => other.display,
            None => {
                return told;
            },
        };
        let bounds = other.bounds();
        let center: i64 = (bounds.min.x as i64 + bounds.max.x as i64) / 2;
        let dest = IVec2 {
            x: saturate(center - (entry.window.width() / 2) as i64),
            y: bounds.min.y,
        };
        self.windows.reposition_entity(focus, dest, other.id());
        self.windows.reshuffle_around(focus);
        told.push(Effect::CenterMouse { on: None, bounds });
        assert(self@.workspaces[active.strip as int] == self.workspaces@[active.strip as int]@);
        assert(self.workspaces@[active.strip as int].strip.wf());
        if let Some(right) = self.workspaces[active.strip].strip.right_neighbour(focus) {
            self.windows.reshuffle_around(right);
        }
        self.remove_from_strip(active.strip, focus);
        told
    }

    /// Leaves the event loop.
    pub fn command_quit_handler(&self) -> (r: Effect)
        ensures
            r == Effect::Quit,
    {
        Effect::Quit
    }
}

/// Index of the first workspace at or after `from` that the operating
/// system knows as `id`, or the number of workspaces.
pub open spec fn workspace_index(workspaces: Seq<WorkspaceView>, id: WorkspaceId, from: int)
    -> int
    decreases workspaces.len() - from,
{
    if from < 0 || from >= workspaces.len() {
        workspaces.len() as int
    } else if workspaces[from].id == id {
        from
    } else {
        workspace_index(workspaces, id, from + 1)
    }
}

impl WorldView {
    /// The window that the mouse is sent to on the other display: the one
    /// on the workspace `space` that shows the largest area there.
    pub open spec fn mouse_target(self, space: Option<WorkspaceId>) -> Option<Entity> {
        let other = next_display(self.displays, false, 0);
        if other >= self.displays.len() || space.is_none() || workspace_index(
            self.workspaces,
            space.unwrap(),
            0,
        ) >= self.workspaces.len() {
            None
        } else {
            let all = flattened(
                self.workspaces[workspace_index(self.workspaces, space.unwrap(), 0)].cols,
            );
            match most_visible(
                self.windows,
                all,
                self.displays[other].display.bounds(),
                all.len() as int,
            ) {
                Some((e, _)) => Some(e),
                None => None,
            }
        }
    }

    /// The part of the window that the mouse is sent to that is on the
    /// other display, where its middle can be told.
    pub open spec fn mouse_target_frame(self, space: Option<WorkspaceId>) -> Option<IRect> {
        match self.mouse_target(space) {
            Some(e) => {
                let shown = overlap_of(
                    self.displays[next_display(self.displays, false, 0)].display.bounds(),
                    entry_of(self.windows, e).window.frame,
                );
                if fits_i32(shown.min.x + shown.max.x) && fits_i32(shown.min.y + shown.max.y) {
                    Some(shown)
                } else {
                    None
                }
            },
            None => None,
        }
    }

    /// The model after the mouse was sent to the other display: what the
    /// mouse focused is forgotten, so that the focus can follow it.
    pub open spec fn mouse_moved_to_next_display(self, space: Option<WorkspaceId>) -> WorldView {
        if self.mouse_target_frame(space).is_some() {
            WorldView { focus_follows_mouse: FocusFollowsMouse(None), ..self }
        } else {
            self
        }
    }

    /// What the outside is asked when the mouse is sent to the other
    /// display: to put it in the middle of what shows of the target
    /// window, and to tell the model that it moved there.
    pub open spec fn mouse_moved_to_next_display_effects(self, space: Option<WorkspaceId>) -> Seq<
        Effect,
    > {
        match self.mouse_target_frame(space) {
            Some(shown) => seq![
                Effect::CenterMouse { on: None, bounds: shown },
                Effect::Trigger(
                    WMEventTrigger(
                        Event::MouseMoved {
                            point: IVec2 {
                                x: half(shown.min.x + shown.max.x) as i32,
                                y: half(shown.min.y + shown.max.y) as i32,
                            },
                        },
                    ),
                ),
            ],
            None => Seq::empty(),
        }
    }

    /// The model after the focused window was asked to be as wide as the
    /// display, or to be again what it was before.
    ///
    /// Going full width, the window's fraction of the display's width is
    /// kept with a note of whether it was stacked, and a stacked window
    /// leaves its stack; it is asked to take the padded width and to start
    /// at the left padding. Going back, the note is dropped; the window is
    /// asked to take its former fraction of the padded width and to start
    /// where it is, but no further right than lets it end at the padded
    /// right edge; and a window that was stacked is stacked again, onto
    /// the column to its left. Either way it keeps its height and
    /// vertical place and is asked to be brought into view.
    pub open spec fn full_width_toggled(self) -> WorldView {
        match (self.active(), focus_of(self.windows)) {
            (Some(active), Some(focus)) if has_window(self.windows, focus) => {
                let cols = self.workspaces[active.strip as int].cols;
                let display = self.displays[active.display as int].display;
                let entry = entry_of(self.windows, focus);
                let frame = entry.window.frame;
                let padded = self.padded_width(active.display as int);
                let padding = self.config.edge_padding();
                let (width, x, marker, after) = match entry.full_width {
                    Some(marker) => {
                        let w = saturated(marker.width_ratio.spec_of_rounded(padded));
                        (
                            w,
                            crate::geometry::spec_min(
                                saturated(display.bounds().spec_width()) - padding.right - w,
                                frame.min.x as int,
                            ),
                            None,
                            if marker.was_stacked && holds(cols, focus) {
                                stacked(cols, focus)
                            } else {
                                cols
                            },
                        )
                    },
                    None => (
                        padded,
                        padding.left as int,
                        Some(
                            FullWidthMarker {
                                width_ratio: entry.window.width_ratio,
                                was_stacked: is_stacked(cols, focus),
                            },
                        ),
                        if is_stacked(cols, focus) {
                            unstacked(cols, focus)
                        } else {
                            cols
                        },
                    ),
                };
                let noted = with_window(
                    self.windows,
                    focus,
                    WindowEntry { full_width: marker, ..entry },
                );
                let moved = repositioned(
                    noted,
                    focus,
                    display.spec_absolute(point(x, frame.min.y as int)),
                    display.id(),
                );
                let sized = resized(
                    moved,
                    focus,
                    point(width, saturated(frame.spec_height())),
                    display.id(),
                );
                (WorldView { windows: marked_for_reshuffle(sized, focus), ..self }).with_cols(
                    active.strip as int,
                    after,
                )
            },
            _ => self,
        }
    }
}

impl World {
    /// Whether a display that is not the active one lies in `direction`
    /// of a display with the bounds `active`.
    pub fn display_beyond(&self, direction: &Direction, active: IRect) -> (r: bool)
        ensures
            r == lies_beyond(self@.displays, *direction, active),
    {
        let mut j: usize = 0;
        while j < self.displays.len()
            invariant
                j <= self.displays.len(),
                forall|k: int|
                    0 <= k < j ==> !((#[trigger] self.displays@[k]).active.is_none()
                        && leads_to_other_display(
                        *direction,
                        active,
                        self.displays@[k].display.bounds(),
                    )),
            decreases self.displays.len() - j,
        {
            if self.displays[j].active.is_none() && leads_away(
                direction,
                active,
                self.displays[j].display.bounds(),
            ) {
                return true;
            }
            j += 1;
        }
        false
    }

    /// Finds the workspace that the operating system knows as `id`.
    pub fn find_workspace(&self, id: WorkspaceId) -> (r: Option<usize>)
        ensures
            match r {
                Some(i) => i == workspace_index(self@.workspaces, id, 0) && i
                    < self.workspaces@.len(),
                None => workspace_index(self@.workspaces, id, 0) == self.workspaces@.len(),
            },
    {
        let mut i: usize = 0;
        while i < self.workspaces.len()
            invariant
                i <= self.workspaces.len(),
                workspace_index(self@.workspaces, id, 0) == workspace_index(
                    self@.workspaces,
                    id,
                    i as int,
                ),
            decreases self.workspaces.len() - i,
        {
            assert(self@.workspaces[i as int] == self.workspaces@[i as int]@);
            if self.workspaces[i].strip.id() == id {
                return Some(i);
            }
            i += 1;
        }
        None
    }

    fn find_mouse_target(&self, space: Option<WorkspaceId>) -> (r: Option<IRect>)
        ensures
            r == self@.mouse_target_frame(space),
    {
        let other = match self.other_display() {
            Some(other) => other.display,
            None => {
                return None;
            },
        };
        let strip = match space {
            Some(id) => match self.find_workspace(id) {
                Some(strip) => strip,
                None => {
                    return None;
                },
            },
            None => {
                return None;
            },
        };
        assert(self@.workspaces[strip as int] == self.workspaces@[strip as int]@);
        let all = self.workspaces[strip].strip.all_windows();
        let bounds = other.bounds();
        let mut best: Option<(Entity, u64)> = None;
        let mut k: usize = 0;
        while k < all.len()
            invariant
                k <= all.len(),
                match most_visible(self.windows@, all@, bounds, k as int) {
                    Some((e, shown)) => best == Some((e, shown as u64)) && 0 <= shown
                        <= u64::MAX && has_window(self.windows@, e),
                    None => best.is_none(),
                },
            decreases all.len() - k,
        {
            if let Some(window) = self.windows.get(all[k]) {
                let part = overlap(&bounds, window.frame);
                let wide: u64 = (part.max.x as i64 - part.min.x as i64) as u64;
                let high: u64 = (part.max.y as i64 - part.min.y as i64) as u64;
                assert(0 <= wide * high <= 0xffff_ffff * 0xffff_ffff) by (nonlinear_arith)
                    requires
                        0 <= wide <= 0xffff_ffff,
                        0 <= high <= 0xffff_ffff,
                ;
                let shown: u64 = wide * high;
                let better = match best {
                    Some((_, most)) => most < shown,
                    None => true,
                };
                if better {
                    best = Some((all[k], shown));
                }
            }
            k += 1;
        }
        match best {
            Some((e, _)) => {
                let window = match self.windows.get(e) {
                    Some(window) => window,
                    None => {
                        return None;
                    },
                };
                let shown = overlap(&bounds, window.frame);
                if sum_fits(shown.min.x, shown.max.x) && sum_fits(shown.min.y, shown.max.y) {
                    Some(shown)
                } else {
                    None
                }
            },
            None => None,
        }
    }

    /// Sends the mouse to the other display, given the workspace that is
    /// shown there, if that is known.
    pub fn mouse_to_next_display(&mut self, space: Option<WorkspaceId>) -> (r: Vec<Effect>)
        requires
            old(self).wf(),
        ensures
            final(self).wf(),
            final(self)@ == old(self)@.mouse_moved_to_next_display(space),
            r@ == old(self)@.mouse_moved_to_next_display_effects(space),
    {
        let mut told: Vec<Effect> = Vec::new();
        if let Some(shown) = self.find_mouse_target(space) {
            told.push(Effect::CenterMouse { on: None, bounds: shown });
            let point = shown.center();
            self.focus_follows_mouse = FocusFollowsMouse(None);
            told.push(Effect::Trigger(WMEventTrigger(Event::MouseMoved { point })));
        }
        told
    }

    /// Makes the focused window as wide as the display, or what it was
    /// before.
    pub fn full_width_window(&mut self)
        requires
            old(self).wf(),
        ensures
            final(self).wf(),
            final(self)@ == old(self)@.full_width_toggled(),
    {
        let active = match self.active() {
            Some(active) => active,
            None => {
                return ;
            },
        };
        let focus = match self.windows.focused() {
            Some(entry) => entry.entity,
            None => {
                return ;
            },
        };
        let entry = match self.windows.get_managed(focus) {
            Some(entry) => entry,
            None => {
                return ;
            },
        };
        assert(self@.workspaces[active.strip as int] == self.workspaces@[active.strip as int]@);
        assert(self.workspaces@[active.strip as int].strip.wf());
        let display = self.displays[active.display].display;
        let padding = self.config.edge_padding();
        let padded = saturate(
            display.width() as i64 - padding.left as i64 - padding.right as i64,
        );
        let frame = entry.window.frame;
        let mut taken = LayoutStrip::new(0);
        std::mem::swap(&mut self.workspaces[active.strip].strip, &mut taken);
        let ghost cols = taken@;
        let (width, x, marker) = match entry.full_width {
            Some(marker) => {
                let w = marker.width_ratio.of_rounded(padded);
                let limit: i64 = display.width() as i64 - padding.right as i64 - w as i64;
                let x: i64 = if limit < frame.min.x as i64 {
                    limit
                } else {
                    frame.min.x as i64
                };
                if marker.was_stacked {
                    let _ = taken.stack(focus);
                }
                (w, x, None)
            },
            None => {
                let was_stacked = match taken.index_of(focus) {
                    Ok(index) => match taken.get(index) {
                        Ok(Column::Stack(_)) => true,
                        _ => false,
                    },
                    Err(_) => false,
                };
                if was_stacked {
                    let _ = taken.unstack(focus);
                }
                (
                    padded,
                    padding.left as i64,
                    Some(FullWidthMarker { width_ratio: entry.window.width_ratio, was_stacked }),
                )
            },
        };
        std::mem::swap(&mut self.workspaces[active.strip].strip, &mut taken);
        self.windows.put(WindowEntry { full_width: marker, ..entry });
        self.windows.reposition_entity(
            focus,
            display.absolute_coords(IVec2 { x: saturate(x), y: frame.min.y }),
            display.id(),
        );
        self.windows.resize_entity(
            focus,
            IVec2 { x: width, y: entry.window.height() },
            display.id(),
        );
        self.windows.reshuffle_around(focus);
        proof {
            assert(self@.workspaces =~= old(self)@.with_cols(
                active.strip as int,
                self.workspaces@[active.strip as int].strip@,
            ).workspaces);
            assert forall|i: int| 0 <= i < self.workspaces@.len() implies (
            #[trigger] self.workspaces@[i]).strip.wf() by {
                if i != active.strip {
                    assert(self.workspaces@[i] == old(self).workspaces@[i]);
                }
            }
            if self.workspaces@[active.strip as int].strip@ == cols {
                assert(self@.workspaces =~= old(self)@.workspaces);
            }
        }
    }
}

/// One line of the report on the state of the model.
#[derive(Clone, Copy, Debug, PartialEq, Eq, Structural)]
pub enum StateLine {
    /// A workspace on a display, and whether the display is the active
    /// one.
    Workspace { display: crate::ecs::DisplayId, active: bool, workspace: WorkspaceId },
    /// A window of the workspace named last, and whether it has the focus.
    Listed { window: WindowEntry, focused: bool },
    /// A window that is on no workspace of a display, and whether it has
    /// the focus.
    Remaining { rest: WindowEntry, has_focus: bool },
}

/// Whether the window `e` is the focused one.
pub open spec fn is_focus(windows: Seq<WindowEntry>, e: Entity) -> bool {
    focus_of(windows) == Some(e)
}

/// The lines for the first `k` windows of `all` that are known.
pub open spec fn listed_windows(windows: Seq<WindowEntry>, all: Seq<Entity>, k: int) -> Seq<
    StateLine,
>
    decreases k,
{
    if k <= 0 {
        Seq::empty()
    } else if has_window(windows, all[k - 1]) {
        listed_windows(windows, all, k - 1).push(
            StateLine::Listed {
                window: entry_of(windows, all[k - 1]),
                focused: is_focus(windows, all[k - 1]),
            },
        )
    } else {
        listed_windows(windows, all, k - 1)
    }
}

impl WorldView {
    /// The lines for the first `k` workspaces that are on the display at
    /// `d`, each followed by the lines of its windows.
    pub open spec fn display_lines(self, d: int, k: int) -> Seq<StateLine>
        decreases k,
    {
        if k <= 0 {
            Seq::empty()
        } else {
            let before = self.display_lines(d, k - 1);
            let space = self.workspaces[k - 1];
            if space.parent == Some(self.displays[d].entity) {
                before.push(
                    StateLine::Workspace {
                        display: self.displays[d].display.id(),
                        active: self.displays[d].active.is_some(),
                        workspace: space.id,
                    },
                ) + listed_windows(
                    self.windows,
                    flattened(space.cols),
                    flattened(space.cols).len() as int,
                )
            } else {
                before
            }
        }
    }

    /// The lines for the first `d` displays.
    pub open spec fn displays_lines(self, d: int) -> Seq<StateLine>
        decreases d,
    {
        if d <= 0 {
            Seq::empty()
        } else {
            self.displays_lines(d - 1) + self.display_lines(
                d - 1,
                self.workspaces.len() as int,
            )
        }
    }

    /// Of the first `k` windows, those that the lines `lines` do not
    /// list.
    pub open spec fn remaining_lines(self, lines: Seq<StateLine>, k: int) -> Seq<StateLine>
        decreases k,
    {
        if k <= 0 {
            Seq::empty()
        } else {
            let before = self.remaining_lines(lines, k - 1);
            let entry = self.windows[k - 1];
            if lists(lines, entry.entity, lines.len() as int) {
                before
            } else {
                before.push(
                    StateLine::Remaining {
                        rest: entry,
                        has_focus: is_focus(self.windows, entry.entity),
                    },
                )
            }
        }
    }

    /// The report on the state of the model: every display with its
    /// workspaces and their windows, and then the windows that are on
    /// none of them.
    pub open spec fn state_report(self) -> Seq<StateLine> {
        let listed = self.displays_lines(self.displays.len() as int);
        listed + self.remaining_lines(listed, self.windows.len() as int)
    }
}

/// Whether one of the first `k` lines lists the window `e`.
pub open spec fn lists(lines: Seq<StateLine>, e: Entity, k: int) -> bool
    decreases k,
{
    if k <= 0 {
        false
    } else {
        lists(lines, e, k - 1) || match lines[k - 1] {
            StateLine::Listed { window, .. } => window.entity == e,
            _ => false,
        }
    }
}

proof fn lemma_lists(lines: Seq<StateLine>, e: Entity, k: int, n: int)
    requires
        0 <= k <= n,
        lists(lines, e, k),
    ensures
        lists(lines, e, n),
    decreases n - k,
{
    if k < n {
        lemma_lists(lines, e, k + 1, n);
    }
}

fn is_listed(lines: &Vec<StateLine>, e: Entity) -> (r: bool)
    ensures
        r == lists(lines@, e, lines@.len() as int),
{
    let mut k: usize = 0;
    while k < lines.len()
        invariant
            k <= lines.len(),
            !lists(lines@, e, k as int),
        decreases lines.len() - k,
    {
        if let StateLine::Listed { window, .. } = lines[k] {
            if window.entity == e {
                proof {
                    lemma_lists(lines@, e, k + 1, lines@.len() as int);
                }
                return true;
            }
        }
        k += 1;
    }
    false
}

impl World {
    /// Reports the state of the model.
    pub fn print_internal_state_handler(&self) -> (r: Vec<StateLine>)
        ensures
            r@ == self@.state_report(),
    {
        let focus = match self.windows.focused() {
            Some(entry) => Some(entry.entity),
            None => None,
        };
        let mut lines: Vec<StateLine> = Vec::new();
        let mut d: usize = 0;
        while d < self.displays.len()
            invariant
                d <= self.displays.len(),
                focus == focus_of(self.windows@),
                lines@ == self@.displays_lines(d as int),
            decreases self.displays.len() - d,
        {
            let display = self.displays[d];
            let ghost start = lines@;
            let mut k: usize = 0;
            while k < self.workspaces.len()
                invariant
                    k <= self.workspaces.len(),
                    d < self.displays.len(),
                    display == self.displays@[d as int],
                    focus == focus_of(self.windows@),
                    lines@ == start + self@.display_lines(d as int, k as int),
                decreases self.workspaces.len() - k,
            {
                assert(self@.workspaces[k as int] == self.workspaces@[k as int]@);
                if self.workspaces[k].parent == Some(display.entity) {
                    let ghost before = lines@;
                    lines.push(
                        StateLine::Workspace {
                            display: display.display.id(),
                            active: display.active.is_some(),
                            workspace: self.workspaces[k].strip.id(),
                        },
                    );
                    let all = self.workspaces[k].strip.all_windows();
                    let ghost head = lines@;
                    let mut i: usize = 0;
                    while i < all.len()
                        invariant
                            i <= all.len(),
                            focus == focus_of(self.windows@),
                            lines@ == head + listed_windows(self.windows@, all@, i as int),
                        decreases all.len() - i,
                    {
                        if let Some(entry) = self.windows.get_managed(all[i]) {
                            let ghost so_far = lines@;
                            lines.push(
                                StateLine::Listed { window: entry, focused: focus == Some(all[i]) },
                            );
                            assert(lines@ =~= head + listed_windows(
                                self.windows@,
                                all@,
                                i + 1,
                            ));
                        }
                        i += 1;
                    }
                    assert(lines@ =~= start + self@.display_lines(d as int, k + 1));
                }
                k += 1;
            }
            assert(lines@ =~= self@.displays_lines(d + 1));
            d += 1;
        }
        let ghost listed = lines@;
        let seen = self.print_listed(&lines);
        let mut rest: Vec<StateLine> = Vec::new();
        let mut k: usize = 0;
        while k < self.windows.all.len()
            invariant
                k <= self.windows.all.len(),
                focus == focus_of(self.windows@),
                seen@.len() == self.windows@.len(),
                forall|j: int|
                    0 <= j < seen@.len() ==> seen@[j] == lists(
                        listed,
                        self.windows@[j].entity,
                        listed.len() as int,
                    ),
                rest@ == self@.remaining_lines(listed, k as int),
            decreases self.windows.all.len() - k,
        {
            let entry = self.windows.all[k];
            if !seen[k] {
                rest.push(
                    StateLine::Remaining { rest: entry, has_focus: focus == Some(entry.entity) },
                );
            }
            k += 1;
        }
        let mut i: usize = 0;
        while i < rest.len()
            invariant
                i <= rest.len(),
                lines@ == listed + rest@.take(i as int),
            decreases rest.len() - i,
        {
            lines.push(rest[i]);
            assert(lines@ =~= listed + rest@.take(i + 1));
            i += 1;
        }
        assert(rest@.take(rest@.len() as int) =~= rest@);
        lines
    }

    fn print_listed(&self, lines: &Vec<StateLine>) -> (r: Vec<bool>)
        ensures
            r@.len() == self.windows@.len(),
            forall|j: int|
                0 <= j < r@.len() ==> r@[j] == lists(
                    lines@,
                    self.windows@[j].entity,
                    lines@.len() as int,
                ),
    {
        let mut seen: Vec<bool> = Vec::new();
        let mut k: usize = 0;
        while k < self.windows.all.len()
            invariant
                k <= self.windows.all.len(),
                seen@.len() == k,
                forall|j: int|
                    0 <= j < k ==> seen@[j] == lists(
                        lines@,
                        self.windows@[j].entity,
                        lines@.len() as int,
                    ),
            decreases self.windows.all.len() - k,
        {
            seen.push(is_listed(lines, self.windows.all[k].entity));
            k += 1;
        }
        seen
    }

    /// Carries out a command. The workspace that is shown on the other
    /// display, if the operating system says which, is needed only to send
    /// the mouse there.
    pub fn handle_command(&mut self, command: Command, other_space: Option<WorkspaceId>) -> (r:
        Vec<Effect>)
        requires
            old(self).wf(),
        ensures
            final(self).wf(),
            (final(self)@, r@) == old(self)@.commanded(command, other_space),
    {
        let mut told: Vec<Effect> = Vec::new();
        match command {
            Command::Quit => {
                told.push(Effect::Quit);
                told
            },
            Command::PrintState => told,
            Command::Mouse(MouseMove::ToNextDisplay) => self.mouse_to_next_display(other_space),
            Command::Window(Operation::Focus(direction)) => self.command_move_focus(&direction),
            Command::Window(Operation::Swap(direction)) => self.command_swap_focus(&direction),
            Command::Window(Operation::Center) => self.command_center_window(),
            Command::Window(Operation::ToNextDisplay) => self.to_next_display(),
            Command::Window(Operation::Resize) => {
                self.resize_window();
                told
            },
            Command::Window(Operation::FullWidth) => {
                self.full_width_window();
                told
            },
            Command::Window(Operation::Equalize) => {
                self.equalize_column();
                told
            },
            Command::Window(Operation::Stack(stack)) => {
                self.stack_windows_handler(stack);
                told
            },
            Command::Window(Operation::Manage) => {
                if let Some(effect) = self.manage_window() {
                    told.push(effect);
                }
                told
            },
        }
    }
}

impl WorldView {
    /// The model after a command was carried out, and what the outside
    /// is asked to do for it.
    pub open spec fn commanded(self, command: Command, other_space: Option<WorkspaceId>) -> (
        WorldView,
        Seq<Effect>,
    ) {
        match command {
            Command::Quit => (self, seq![Effect::Quit]),
            Command::PrintState => (self, Seq::empty()),
            Command::Mouse(MouseMove::ToNextDisplay) => (
                self.mouse_moved_to_next_display(other_space),
                self.mouse_moved_to_next_display_effects(other_space),
            ),
            Command::Window(Operation::Focus(direction)) => (
                self.focus_moved(direction),
                self.focus_moved_effects(direction),
            ),
            Command::Window(Operation::Swap(direction)) => (
                self.swapped(direction),
                self.swapped_effects(direction),
            ),
            Command::Window(Operation::Center) => (self.centered(), self.centered_effects()),
            Command::Window(Operation::ToNextDisplay) => (
                self.moved_to_next_display(),
                self.moved_to_next_display_effects(),
            ),
            Command::Window(Operation::Resize) => (self.resized_to_preset(), Seq::empty()),
            Command::Window(Operation::FullWidth) => (self.full_width_toggled(), Seq::empty()),
            Command::Window(Operation::Equalize) => (self.equalized(), Seq::empty()),
            Command::Window(Operation::Stack(stack)) => (self.stacked(stack), Seq::empty()),
            Command::Window(Operation::Manage) => (
                self.manage_toggled(),
                match self.manage_toggled_event() {
                    Some(effect) => seq![effect],
                    None => Seq::empty(),
                },
            ),
        }
    }
}

} // verus!
