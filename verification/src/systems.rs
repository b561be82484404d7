//! The layout pass: where every window of the active strip is to go so
//! that the window the pass is about is in view.

use std::collections::HashMap;
use vstd::prelude::*;
use crate::ecs::{DisplayId, DockPosition, RepositionMarker, ResizeMarker};
use crate::geometry::{spec_max, spec_min, IRect, IVec2, Origin, Size};
use crate::layout::{
    column_of, frame_of, frames_valid, holds, layout, layout_in_range, lemma_column_of, Column,
    Entity, LayoutStrip,
};
use crate::ratio::{saturate, saturated, toward_zero, Ratio, RATIO_ONE};

verus! {

/// A window counts as off screen where no more than this many pixels of
/// its width are inside the padded viewport.
pub const OFF_SCREEN_THRESHOLD: i32 = 20;

/// The padding kept free at the edges of a display.
#[derive(Clone, Copy, Debug, PartialEq, Eq, Structural)]
pub struct EdgePadding {
    pub top: i32,
    pub right: i32,
    pub bottom: i32,
    pub left: i32,
}

/// An `i32` point made of two integers, each held to the range of an `i32`.
pub open spec fn point(x: int, y: int) -> IVec2 {
    IVec2 { x: saturated(x) as i32, y: saturated(y) as i32 }
}

/// A rectangle made of four integers, each held to the range of an `i32`.
pub open spec fn rect(x0: int, y0: int, x1: int, y1: int) -> IRect {
    IRect { min: point(x0, y0), max: point(x1, y1) }
}

fn make_rect(x0: i64, y0: i64, x1: i64, y1: i64) -> (r: IRect)
    ensures
        r == rect(x0 as int, y0 as int, x1 as int, y1 as int),
{
    IRect {
        min: IVec2 { x: saturate(x0), y: saturate(y0) },
        max: IVec2 { x: saturate(x1), y: saturate(y1) },
    }
}

/// Where a window is going to be: its frame with the target of a pending
/// move and of a pending resize on the display `active` put in place of
/// where it is and how large it is now.
pub open spec fn moving_frame(
    frame: IRect,
    reposition: Option<RepositionMarker>,
    resize: Option<ResizeMarker>,
    active: DisplayId,
) -> IRect {
    let min = if reposition.is_some() && reposition.unwrap().display_id == active {
        reposition.unwrap().origin
    } else {
        frame.min
    };
    let (width, height) = if resize.is_some() && resize.unwrap().display_id == active {
        (resize.unwrap().size.x as int, resize.unwrap().size.y as int)
    } else {
        (frame.spec_width(), frame.spec_height())
    };
    rect(min.x as int, min.y as int, min.x + width, min.y + height)
}

/// The frame a window is moving to: the intent, where there is one, and
/// else where the operating system last saw it.
pub fn get_moving_window_frame(
    frame: IRect,
    reposition: Option<RepositionMarker>,
    resize: Option<ResizeMarker>,
    active: DisplayId,
) -> (r: IRect)
    ensures
        r == moving_frame(frame, reposition, resize, active),
{
    let mut min = frame.min;
    let mut width: i64 = frame.max.x as i64 - frame.min.x as i64;
    let mut height: i64 = frame.max.y as i64 - frame.min.y as i64;
    if let Some(reposition) = reposition {
        if reposition.display_id == active {
            min = reposition.origin;
        }
    }
    if let Some(resize) = resize {
        if resize.display_id == active {
            width = resize.size.x as i64;
            height = resize.size.y as i64;
        }
    }
    make_rect(min.x as i64, min.y as i64, min.x as i64 + width, min.y as i64 + height)
}

/// The height of a display that windows can have: all of it but what a
/// dock at the bottom takes.
pub open spec fn display_height(bounds: IRect, dock: Option<DockPosition>) -> int {
    match dock {
        Some(DockPosition::Bottom(offset)) => bounds.spec_height() - offset,
        _ => bounds.spec_height(),
    }
}

pub fn get_display_height(bounds: IRect, dock: Option<DockPosition>) -> (r: i32)
    ensures
        r == saturated(display_height(bounds, dock)),
{
    let height: i64 = bounds.max.y as i64 - bounds.min.y as i64;
    match dock {
        Some(DockPosition::Bottom(offset)) => saturate(height - offset as i64),
        _ => saturate(height),
    }
}

/// Where a frame has to start horizontally to be in view.
///
/// A frame that reaches past the padded right edge of the display is moved
/// left to end there; else one that starts left of the padded left edge is
/// moved to start there. A dock on the left pushes the frame right of it;
/// a frame that reaches into a dock on the right is moved left to end
/// where the dock begins.
pub open spec fn exposed_x(
    frame: IRect,
    display: IRect,
    dock: Option<DockPosition>,
    pad_right: int,
    pad_left: int,
) -> int {
    let width = frame.spec_width();
    let bumped = if frame.max.x > display.max.x - pad_right {
        display.max.x - pad_right - width
    } else if frame.min.x < display.min.x + pad_left {
        display.min.x + pad_left
    } else {
        frame.min.x as int
    };
    match dock {
        Some(DockPosition::Left(offset)) => if bumped < display.min.x + offset {
            display.min.x + offset
        } else {
            bumped
        },
        Some(DockPosition::Right(offset)) => if bumped + width > display.max.x - offset {
            display.max.x - offset - width
        } else {
            bumped
        },
        _ => bumped,
    }
}

/// The frame that brings a window into view: `frame` moved horizontally to
/// where `exposed_x` says, its size and vertical place unchanged.
pub open spec fn exposed(
    frame: IRect,
    display: IRect,
    dock: Option<DockPosition>,
    pad_right: int,
    pad_left: int,
) -> IRect {
    let x = exposed_x(frame, display, dock, pad_right, pad_left);
    IRect {
        min: IVec2 { x: saturated(x) as i32, y: frame.min.y },
        max: IVec2 { x: saturated(x + frame.spec_width()) as i32, y: frame.max.y },
    }
}

/// Moves the frame a window is going to have into the padded bounds of the
/// display.
pub fn expose_window(
    frame: IRect,
    display_bounds: IRect,
    dock: Option<DockPosition>,
    edge_padding: EdgePadding,
) -> (r: IRect)
    ensures
        r == exposed(
            frame,
            display_bounds,
            dock,
            edge_padding.right as int,
            edge_padding.left as int,
        ),
{
    let pad_right = edge_padding.right as i64;
    let pad_left = edge_padding.left as i64;
    let width: i64 = frame.max.x as i64 - frame.min.x as i64;
    let dmin = display_bounds.min.x as i64;
    let dmax = display_bounds.max.x as i64;
    let mut x: i64 = frame.min.x as i64;
    if frame.max.x as i64 > dmax - pad_right {
        x = dmax - pad_right - width;
    } else if (frame.min.x as i64) < dmin + pad_left {
        x = dmin + pad_left;
    }
    match dock {
        Some(DockPosition::Left(offset)) => {
            if x < dmin + offset as i64 {
                x = dmin + offset as i64;
            }
        },
        Some(DockPosition::Right(offset)) => {
            if x + width > dmax - offset as i64 {
                x = dmax - offset as i64 - width;
            }
        },
        _ => {},
    }
    IRect {
        min: IVec2 { x: saturate(x), y: frame.min.y },
        max: IVec2 { x: saturate(x + width), y: frame.max.y },
    }
}

/// The scroll offset of the strip that puts the column at `position` in
/// the strip at `x` on a display that starts at `display_min_x`.
pub open spec fn anchor_offset(position: int, x: int, display_min_x: int) -> int {
    position - (x - display_min_x)
}

pub fn viewport_offset(position: i32, x: i32, display_min_x: i32) -> (r: i32)
    ensures
        r == saturated(anchor_offset(position as int, x as int, display_min_x as int)),
{
    saturate(position as i64 - (x as i64 - display_min_x as i64))
}

/// What a layout pass needs to know of the display and the configuration.
#[derive(Clone, Copy, Debug, PartialEq, Eq, Structural)]
pub struct Stage {
    /// The bounds of the active display.
    pub display: IRect,
    pub menubar_height: i32,
    /// The height windows can have on the display.
    pub height: i32,
    pub padding: EdgePadding,
    /// How many pixels of an off-screen window stay in view.
    pub sliver_width: i32,
    /// How much of the viewport's height a sliver takes.
    pub sliver_height: Ratio,
    /// Whether another display lies above this one.
    pub display_above: bool,
}

impl Stage {
    pub open spec fn display_width(self) -> int {
        self.display.spec_width()
    }

    /// The width of the viewport: the display without its side padding.
    pub open spec fn viewport_width(self) -> int {
        self.display_width() - (self.padding.left + self.padding.right)
    }

    /// The height of the viewport: what windows can have, without the
    /// padding at the top and at the bottom.
    pub open spec fn viewport_height(self) -> int {
        self.height - (self.padding.top + self.padding.bottom)
    }

    /// The viewport that the strip is laid out in: at the origin, the
    /// display shrunk by the edge padding.
    pub open spec fn spec_viewport(self) -> IRect {
        rect(0, 0, self.viewport_width(), self.viewport_height())
    }

    /// By how much a single window that is off screen is shortened at its
    /// top and at its bottom.
    pub open spec fn inset(self) -> int {
        toward_zero(
            self.spec_viewport().spec_height() * (RATIO_ONE - self.sliver_height.ppm()),
            2 * RATIO_ONE,
        )
    }

    pub fn viewport(&self) -> (r: IRect)
        ensures
            r == self.spec_viewport(),
    {
        let width: i64 = self.display.max.x as i64 - self.display.min.x as i64;
        make_rect(
            0,
            0,
            width - (self.padding.left as i64 + self.padding.right as i64),
            self.height as i64 - (self.padding.top as i64 + self.padding.bottom as i64),
        )
    }
}

/// The horizontal extent of a frame of the viewport on the display: taken
/// to the display's coordinates and moved right by the left padding.
pub open spec fn on_display_x(frame: IRect, stage: Stage) -> (int, int) {
    let near = saturated(frame.min.x + stage.display.min.x);
    let far = saturated(frame.max.x + stage.display.min.x);
    (spec_min(near, far) + stage.padding.left, spec_max(near, far) + stage.padding.left)
}

/// The vertical extent of a frame of the viewport in the display's
/// coordinates.
pub open spec fn on_display_y(frame: IRect, stage: Stage) -> (int, int) {
    let near = saturated(frame.min.y + stage.display.min.y);
    let far = saturated(frame.max.y + stage.display.min.y);
    (spec_min(near, far), spec_max(near, far))
}

/// How many pixels of the horizontal extent `x` lie between the padded
/// edges of the display; not positive where none do.
pub open spec fn visible_width(x: (int, int), stage: Stage) -> int {
    spec_min(x.1, stage.display_width() - stage.padding.right) - spec_max(
        x.0,
        stage.padding.left as int,
    )
}

/// No more than the threshold of the window's width is in view.
pub open spec fn off_screen(x: (int, int), stage: Stage) -> bool {
    visible_width(x, stage) <= OFF_SCREEN_THRESHOLD
}

/// Where an off-screen window goes horizontally: so that exactly a sliver
/// of it shows at the left edge of the display, where its middle is not
/// right of the left padding, and else at the right edge. The window's own
/// horizontal padding is added to the sliver.
pub open spec fn sliver_x(x: (int, int), h_pad: int, stage: Stage) -> (int, int) {
    let width = x.1 - x.0;
    let sliver = stage.sliver_width + h_pad;
    if x.0 + toward_zero(width, 2) <= stage.padding.left {
        (sliver - width, sliver)
    } else {
        (stage.display_width() - sliver, stage.display_width() - sliver + width)
    }
}

/// Where an off-screen window goes vertically: down by the menu bar and
/// the top padding; a single window is also shortened at both ends to the
/// sliver's height, a stacked one keeps its height; and where another
/// display lies above, the window goes down by a quarter of the viewport's
/// height.
pub open spec fn sliver_y(y: (int, int), stacked: bool, stage: Stage) -> (int, int) {
    let down = stage.menubar_height + stage.padding.top;
    let bump = if stage.display_above {
        toward_zero(stage.spec_viewport().spec_height(), 4)
    } else {
        0
    };
    if stacked {
        (y.0 + down + bump, y.1 + down + bump)
    } else {
        (y.0 + down + stage.inset() + bump, y.1 - stage.inset() + bump)
    }
}

/// Where a window goes on the display, given its frame in the viewport.
///
/// A window of which more than `OFF_SCREEN_THRESHOLD` pixels are in view
/// goes where the layout put it, down by the menu bar and the top padding.
/// Any other is off screen and shows a sliver at an edge of the display.
pub open spec fn placed(frame: IRect, h_pad: int, stacked: bool, stage: Stage) -> IRect {
    let x = on_display_x(frame, stage);
    let y = on_display_y(frame, stage);
    if off_screen(x, stage) {
        let nx = sliver_x(x, h_pad, stage);
        let ny = sliver_y(y, stacked, stage);
        rect(nx.0, ny.0, nx.1, ny.1)
    } else {
        let down = stage.menubar_height + stage.padding.top;
        rect(x.0, y.0 + down, x.1, y.1 + down)
    }
}

fn ordered(a: i64, b: i64) -> (r: (i64, i64))
    ensures
        r.0 == spec_min(a as int, b as int),
        r.1 == spec_max(a as int, b as int),
{
    if a < b {
        (a, b)
    } else {
        (b, a)
    }
}

fn sliver_inset(stage: &Stage) -> (r: i64)
    ensures
        r == stage.inset(),
        -0x1_0000_0000_0000 <= r <= 0x1_0000_0000_0000,
{
    let viewport = stage.viewport();
    let view_height: i64 = viewport.max.y as i64 - viewport.min.y as i64;
    let part: i64 = 1_000_000 - stage.sliver_height.0 as i64;
    assert(-0x8000_0000 * 0x8010_0000 <= view_height * part <= 0x8000_0000 * 0x8010_0000)
        by (nonlinear_arith)
        requires
            -0x8000_0000 <= view_height <= 0x8000_0000,
            -0x8010_0000 <= part <= 0x8010_0000,
    ;
    let product: i64 = view_height * part;
    product / 2_000_000
}

fn place_sliver_y(y0: i64, y1: i64, stacked: bool, stage: &Stage) -> (r: (i64, i64))
    requires
        -0x1_0000_0000 <= y0 <= 0x1_0000_0000,
        -0x1_0000_0000 <= y1 <= 0x1_0000_0000,
    ensures
        (r.0 as int, r.1 as int) == sliver_y((y0 as int, y1 as int), stacked, *stage),
{
    let down: i64 = stage.menubar_height as i64 + stage.padding.top as i64;
    let viewport = stage.viewport();
    let view_height: i64 = viewport.max.y as i64 - viewport.min.y as i64;
    let bump: i64 = if stage.display_above {
        view_height / 4
    } else {
        0
    };
    if stacked {
        (y0 + down + bump, y1 + down + bump)
    } else {
        let inset = sliver_inset(stage);
        (y0 + down + inset + bump, y1 - inset + bump)
    }
}

fn place_sliver_x(x0: i64, x1: i64, h_pad: i32, stage: &Stage) -> (r: (i64, i64))
    requires
        -0x2_0000_0000 <= x0 <= 0x2_0000_0000,
        -0x2_0000_0000 <= x1 <= 0x2_0000_0000,
    ensures
        (r.0 as int, r.1 as int) == sliver_x((x0 as int, x1 as int), h_pad as int, *stage),
{
    let display_width: i64 = stage.display.max.x as i64 - stage.display.min.x as i64;
    let width: i64 = x1 - x0;
    let sliver: i64 = stage.sliver_width as i64 + h_pad as i64;
    if x0 + width / 2 <= stage.padding.left as i64 {
        (sliver - width, sliver)
    } else {
        (display_width - sliver, display_width - sliver + width)
    }
}

/// Computes where a window goes on the display from its frame in the
/// viewport.
pub fn place_frame(frame: IRect, h_pad: i32, stacked: bool, stage: &Stage) -> (r: IRect)
    ensures
        r == placed(frame, h_pad as int, stacked, *stage),
{
    let dx: i64 = stage.display.min.x as i64;
    let dy: i64 = stage.display.min.y as i64;
    let pad_left: i64 = stage.padding.left as i64;
    let display_width: i64 = stage.display.max.x as i64 - stage.display.min.x as i64;
    let across = ordered(
        saturate(frame.min.x as i64 + dx) as i64,
        saturate(frame.max.x as i64 + dx) as i64,
    );
    let upright = ordered(
        saturate(frame.min.y as i64 + dy) as i64,
        saturate(frame.max.y as i64 + dy) as i64,
    );
    let x0: i64 = across.0 + pad_left;
    let x1: i64 = across.1 + pad_left;
    let edges = ordered(x1, display_width - stage.padding.right as i64);
    let starts = ordered(x0, pad_left);
    if edges.0 - starts.1 <= OFF_SCREEN_THRESHOLD as i64 {
        let nx = place_sliver_x(x0, x1, h_pad, stage);
        let ny = place_sliver_y(upright.0, upright.1, stacked, stage);
        make_rect(nx.0, ny.0, nx.1, ny.1)
    } else {
        let down: i64 = stage.menubar_height as i64 + stage.padding.top as i64;
        make_rect(x0, upright.0 + down, x1, upright.1 + down)
    }
}

/// What a layout pass asks of one window: a new size, a new place, both
/// or neither.
#[derive(Clone, Copy, Debug, PartialEq, Eq, Structural)]
pub struct Target {
    pub entity: Entity,
    pub resize: Option<Size>,
    pub reposition: Option<Origin>,
}

/// The window is part of a stack.
pub open spec fn is_stacked(cols: Seq<Seq<Entity>>, e: Entity) -> bool {
    holds(cols, e) && cols[column_of(cols, e)].len() >= 2
}

/// The horizontal padding of a window, none where it is not known.
pub open spec fn h_pad_of(h_pads: Map<Entity, i32>, e: Entity) -> int {
    if h_pads.contains_key(e) {
        h_pads[e] as int
    } else {
        0
    }
}

/// What is asked of a window that is now at `old` and belongs at `new`:
/// a resize where the two differ in size, a move where they differ in
/// their top-left corner.
pub open spec fn target_of(e: Entity, old: IRect, new: IRect) -> Target {
    Target {
        entity: e,
        resize: if old.spec_width() != new.spec_width() || old.spec_height()
            != new.spec_height() {
            Some(point(new.spec_width(), new.spec_height()))
        } else {
            None
        },
        reposition: if old.min != new.min {
            Some(new.min)
        } else {
            None
        },
    }
}

/// The targets for the first `k` windows that the layout lists. A window
/// whose frame is not known is passed over.
pub open spec fn targets(
    placed_in_viewport: Seq<(Entity, IRect)>,
    cols: Seq<Seq<Entity>>,
    frames: Map<Entity, IRect>,
    h_pads: Map<Entity, i32>,
    stage: Stage,
    k: int,
) -> Seq<Target>
    decreases k,
{
    if k <= 0 {
        Seq::empty()
    } else {
        let (e, frame) = placed_in_viewport[k - 1];
        let before = targets(placed_in_viewport, cols, frames, h_pads, stage, k - 1);
        if frames.contains_key(e) {
            before.push(
                target_of(
                    e,
                    frames[e],
                    placed(frame, h_pad_of(h_pads, e), is_stacked(cols, e), stage),
                ),
            )
        } else {
            before
        }
    }
}

/// The scroll offset that the layout works with: the one the caller
/// found, which counts from the padded left edge, and the left padding.
pub open spec fn padded_offset(viewport_offset: int, stage: Stage) -> int {
    saturated(viewport_offset + stage.padding.left)
}

/// What a layout pass asks of the windows of a strip scrolled by
/// `viewport_offset`.
pub open spec fn pass(
    cols: Seq<Seq<Entity>>,
    frames: Map<Entity, IRect>,
    h_pads: Map<Entity, i32>,
    viewport_offset: int,
    stage: Stage,
) -> Seq<Target> {
    let placed_in_viewport = layout(
        cols,
        frames,
        padded_offset(viewport_offset, stage),
        stage.spec_viewport(),
        cols.len() as int,
    );
    targets(placed_in_viewport, cols, frames, h_pads, stage, placed_in_viewport.len() as int)
}

/// What is asked of a window that is now at `old` and belongs at `new`.
pub fn target_for_frames(entity: Entity, old: IRect, new: IRect) -> (r: Target)
    ensures
        r == target_of(entity, old, new),
{
    target_for(entity, old, new)
}

fn target_for(entity: Entity, old: IRect, new: IRect) -> (r: Target)
    ensures
        r == target_of(entity, old, new),
{
    let old_width: i64 = old.max.x as i64 - old.min.x as i64;
    let old_height: i64 = old.max.y as i64 - old.min.y as i64;
    let new_width: i64 = new.max.x as i64 - new.min.x as i64;
    let new_height: i64 = new.max.y as i64 - new.min.y as i64;
    Target {
        entity,
        resize: if old_width != new_width || old_height != new_height {
            Some(IVec2 { x: saturate(new_width), y: saturate(new_height) })
        } else {
            None
        },
        reposition: if old.min.x != new.min.x || old.min.y != new.min.y {
            Some(new.min)
        } else {
            None
        },
    }
}

fn stacked_in(strip: &LayoutStrip, entity: Entity) -> (r: bool)
    requires
        strip.wf(),
    ensures
        r == is_stacked(strip@, entity),
{
    match strip.index_of(entity) {
        Ok(index) => match strip.get(index) {
            Ok(Column::Stack(_)) => true,
            _ => false,
        },
        Err(_) => false,
    }
}

fn h_pad_for(h_pads: &HashMap<Entity, i32>, entity: Entity) -> (r: i32)
    ensures
        r == h_pad_of(h_pads@, entity),
{
    broadcast use vstd::std_specs::hash::group_hash_axioms;

    match h_pads.get(&entity) {
        Some(pad) => *pad,
        None => 0,
    }
}

/// Whether a layout pass at this scroll offset stays within the range of
/// `i32`.
pub open spec fn pass_in_range(
    cols: Seq<Seq<Entity>>,
    frames: Map<Entity, IRect>,
    viewport_offset: int,
    stage: Stage,
) -> bool {
    layout_in_range(cols, frames, padded_offset(viewport_offset, stage), stage.spec_viewport())
}

/// Lays out the strip scrolled by `viewport_offset` and says for every
/// window whose frame is known what size and place it is to get, where
/// that is not the size and place it is going to have anyway.
pub fn position_layout_windows(
    viewport_offset: i32,
    strip: &LayoutStrip,
    frames: &HashMap<Entity, IRect>,
    h_pads: &HashMap<Entity, i32>,
    stage: &Stage,
) -> (r: Vec<Target>)
    requires
        strip.wf(),
        frames_valid(frames@),
        pass_in_range(strip@, frames@, viewport_offset as int, *stage),
    ensures
        r@ == pass(strip@, frames@, h_pads@, viewport_offset as int, *stage),
{
    let viewport = stage.viewport();
    let offset = saturate(viewport_offset as i64 + stage.padding.left as i64);
    let placed_in_viewport = strip.calculate_layout(offset, &viewport, frames);
    let mut out: Vec<Target> = Vec::new();
    let mut k: usize = 0;
    while k < placed_in_viewport.len()
        invariant
            k <= placed_in_viewport.len(),
            strip.wf(),
            out@ == targets(placed_in_viewport@, strip@, frames@, h_pads@, *stage, k as int),
        decreases placed_in_viewport.len() - k,
    {
        let (entity, frame) = placed_in_viewport[k];
        if let Some(old_frame) = frame_of(frames, entity) {
            let h_pad = h_pad_for(h_pads, entity);
            let stacked = stacked_in(strip, entity);
            let new_frame = place_frame(frame, h_pad, stacked, stage);
            out.push(target_for(entity, old_frame, new_frame));
        }
        k += 1;
    }
    out
}

} // verus!
