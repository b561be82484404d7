//! What holds of the animation over a run of ticks.

use vstd::prelude::*;
use crate::animation::{
    display_index, distance, in_reach, lemma_step_progress, moved_towards, travel,
};
use crate::geometry::{fits_i32, IVec2};
use crate::manager::{moved_to, sized_to, Window};
use crate::ratio::{saturated, Ratio};
use crate::triggers::Effect;
use crate::world::{
    entry_of, has_window, lemma_window_index, window_index, WindowEntry, WorldView,
};

verus! {

/// No two windows are known by one entity.
pub open spec fn unique(windows: Seq<WindowEntry>) -> bool {
    forall|i: int, j: int|
        0 <= i < windows.len() && 0 <= j < windows.len() && i != j ==> windows[i].entity
            != windows[j].entity
}

/// The windows `b` are the windows `a`, each of the same entity.
pub open spec fn same_entities(a: Seq<WindowEntry>, b: Seq<WindowEntry>) -> bool {
    &&& a.len() == b.len()
    &&& forall|i: int| 0 <= i < a.len() ==> (#[trigger] a[i]).entity == b[i].entity
}

/// The window at `k` after the pass of the animation that moves windows.
pub open spec fn moved_entry(w: WorldView, k: int, delta_ms: u64) -> WindowEntry {
    let entry = w.windows[k];
    match w.move_step(k, delta_ms) {
        Some(position) => WindowEntry {
            window: Window { frame: moved_to(entry.window.frame, position), ..entry.window },
            reposition: if entry.reposition.unwrap().origin == position {
                None
            } else {
                entry.reposition
            },
            ..entry
        },
        None => if w.move_given_up(k) {
            WindowEntry { reposition: None, ..entry }
        } else {
            entry
        },
    }
}

/// The window at `k` after the pass of the animation that resizes
/// windows.
pub open spec fn sized_entry(w: WorldView, k: int, delta_ms: u64) -> WindowEntry {
    let entry = w.windows[k];
    match w.size_step(k, delta_ms) {
        Some(size) => {
            let display = w.displays[display_index(
                w.displays,
                entry.resize.unwrap().display_id,
                0,
            )].display;
            let width = saturated(display.bounds().spec_width());
            let frame = sized_to(entry.window.frame, size);
            WindowEntry {
                window: Window {
                    frame,
                    width_ratio: if width > 0 {
                        Ratio(Ratio::spec_between(frame.spec_width(), width) as i32)
                    } else {
                        entry.window.width_ratio
                    },
                    ..entry.window
                },
                resize: if entry.resize.unwrap().size == size {
                    None
                } else {
                    entry.resize
                },
                ..entry
            }
        },
        None => if w.size_given_up(k) {
            WindowEntry { resize: None, ..entry }
        } else {
            entry
        },
    }
}

proof fn lemma_index(windows: Seq<WindowEntry>, k: int)
    requires
        0 <= k < windows.len(),
        unique(windows),
    ensures
        window_index(windows, windows[k].entity) == k,
        has_window(windows, windows[k].entity),
        entry_of(windows, windows[k].entity) == windows[k],
{
    lemma_window_index(windows, windows[k].entity);
}

/// The pass that moves windows changes each window by itself, as
/// `moved_entry` says, and nothing else of the model.
pub proof fn lemma_moved_from(
    w: WorldView,
    seen: WorldView,
    delta_ms: u64,
    told: Seq<Effect>,
    j: int,
)
    requires
        0 <= j <= seen.windows.len(),
        unique(seen.windows),
        same_entities(seen.windows, w.windows),
        forall|i: int| j <= i < seen.windows.len() ==> w.windows[i] == seen.windows[i],
        w.displays == seen.displays,
    ensures
        ({
            let after = w.moved_from(seen, delta_ms, told, j).0;
            &&& after == (WorldView { windows: after.windows, ..w })
            &&& after.windows.len() == w.windows.len()
            &&& forall|i: int| 0 <= i < j ==> after.windows[i] == w.windows[i]
            &&& forall|i: int|
                j <= i < seen.windows.len() ==> after.windows[i] == moved_entry(seen, i, delta_ms)
        }),
    decreases seen.windows.len() - j,
{
    if j < seen.windows.len() {
        let e = seen.windows[j].entity;
        assert(unique(w.windows)) by {
            assert forall|a: int, b: int|
                0 <= a < w.windows.len() && 0 <= b < w.windows.len() && a != b implies w.windows[a].entity
                != w.windows[b].entity by {
                assert(seen.windows[a].entity == w.windows[a].entity);
                assert(seen.windows[b].entity == w.windows[b].entity);
            }
        }
        assert(w.windows[j].entity == e);
        lemma_index(w.windows, j);
        let (next, more) = match seen.move_step(j, delta_ms) {
            Some(position) => (
                w.window_moved(e, position),
                told.push(
                    Effect::Reposition {
                        moved: e,
                        origin: crate::events::padded_origin(
                            position,
                            seen.windows[j].window.horizontal_padding as int,
                            seen.windows[j].window.vertical_padding as int,
                        ),
                    },
                ),
            ),
            None => if seen.move_given_up(j) {
                (w.window_moved(e, seen.windows[j].window.frame.min), told)
            } else {
                (w, told)
            },
        };
        assert(next.windows =~= w.windows.update(j, moved_entry(seen, j, delta_ms)));
        assert(next == (WorldView { windows: next.windows, ..w }));
        assert(same_entities(seen.windows, next.windows));
        lemma_moved_from(next, seen, delta_ms, more, j + 1);
    }
}

/// The pass that resizes windows changes each window by itself, as
/// `sized_entry` says, and nothing else of the model.
pub proof fn lemma_sized_from(
    w: WorldView,
    seen: WorldView,
    delta_ms: u64,
    told: Seq<Effect>,
    j: int,
)
    requires
        0 <= j <= seen.windows.len(),
        unique(seen.windows),
        same_entities(seen.windows, w.windows),
        forall|i: int| j <= i < seen.windows.len() ==> w.windows[i] == seen.windows[i],
        w.displays == seen.displays,
    ensures
        ({
            let after = w.sized_from(seen, delta_ms, told, j).0;
            &&& after == (WorldView { windows: after.windows, ..w })
            &&& after.windows.len() == w.windows.len()
            &&& forall|i: int| 0 <= i < j ==> after.windows[i] == w.windows[i]
            &&& forall|i: int|
                j <= i < seen.windows.len() ==> after.windows[i] == sized_entry(seen, i, delta_ms)
        }),
    decreases seen.windows.len() - j,
{
    if j < seen.windows.len() {
        let e = seen.windows[j].entity;
        assert(unique(w.windows)) by {
            assert forall|a: int, b: int|
                0 <= a < w.windows.len() && 0 <= b < w.windows.len() && a != b implies w.windows[a].entity
                != w.windows[b].entity by {
                assert(seen.windows[a].entity == w.windows[a].entity);
                assert(seen.windows[b].entity == w.windows[b].entity);
            }
        }
        assert(w.windows[j].entity == e);
        lemma_index(w.windows, j);
        let (next, more) = match seen.size_step(j, delta_ms) {
            Some(size) => (
                w.window_sized(e, size),
                told.push(
                    Effect::Resize {
                        sized: e,
                        size: crate::events::padded_size(
                            size,
                            seen.windows[j].window.horizontal_padding as int,
                            seen.windows[j].window.vertical_padding as int,
                        ),
                    },
                ),
            ),
            None => if seen.size_given_up(j) {
                (w.window_sized(e, seen.windows[j].resize.unwrap().size), told)
            } else {
                (w, told)
            },
        };
        assert(next.windows =~= w.windows.update(j, sized_entry(seen, j, delta_ms)));
        assert(next == (WorldView { windows: next.windows, ..w }));
        assert(same_entities(seen.windows, next.windows));
        lemma_sized_from(next, seen, delta_ms, more, j + 1);
    }
}

/// The model after the pass of the animation that moves windows.
pub open spec fn moved_pass(w: WorldView, delta_ms: u64) -> WorldView {
    w.moved_from(w, delta_ms, Seq::empty(), 0).0
}

/// The model after one tick of the animation: the pass that moves
/// windows, then the pass that resizes them.
pub open spec fn animated(w: WorldView, delta_ms: u64) -> WorldView {
    moved_pass(w, delta_ms).sized_from(moved_pass(w, delta_ms), delta_ms, Seq::empty(), 0).0
}

/// The model after `n` ticks of the animation, `delta_ms` milliseconds
/// each.
pub open spec fn animated_for(w: WorldView, delta_ms: u64, n: nat) -> WorldView
    decreases n,
{
    if n == 0 {
        w
    } else {
        animated_for(animated(w, delta_ms), delta_ms, (n - 1) as nat)
    }
}

/// How far a window that is asked to move or to take a size on the
/// display known as `id` travels in a tick.
pub open spec fn step_of(w: WorldView, id: crate::ecs::DisplayId, delta_ms: u64) -> int {
    travel(
        w.config.animation_speed(),
        delta_ms,
        saturated(
            w.displays[display_index(w.displays, id, 0)].display.bounds().spec_width(),
        ) as i32,
    )
}

/// The extent of a frame.
pub open spec fn extent_of(frame: crate::geometry::IRect) -> IVec2 {
    IVec2 { x: frame.spec_width() as i32, y: frame.spec_height() as i32 }
}

/// A tick changes every window by itself and nothing else of the model:
/// first as the pass that moves says, then as the pass that resizes says.
/// A window that is still asked to move after the first pass is not
/// resized and keeps what it is asked.
pub proof fn lemma_animated(w: WorldView, delta_ms: u64)
    requires
        unique(w.windows),
    ensures
        ({
            let moved = moved_pass(w, delta_ms);
            let after = animated(w, delta_ms);
            &&& moved == (WorldView { windows: moved.windows, ..w })
            &&& after == (WorldView { windows: after.windows, ..w })
            &&& same_entities(w.windows, after.windows)
            &&& unique(after.windows)
            &&& forall|i: int|
                0 <= i < w.windows.len() ==> moved.windows[i] == moved_entry(w, i, delta_ms)
            &&& forall|i: int|
                0 <= i < w.windows.len() ==> after.windows[i] == sized_entry(moved, i, delta_ms)
            &&& forall|i: int|
                0 <= i < w.windows.len() && moved.windows[i].reposition.is_some()
                    ==> after.windows[i] == moved.windows[i]
        }),
{
    let moved = moved_pass(w, delta_ms);
    lemma_moved_from(w, w, delta_ms, Seq::empty(), 0);
    assert(same_entities(w.windows, moved.windows));
    assert(unique(moved.windows)) by {
        assert forall|a: int, b: int|
            0 <= a < moved.windows.len() && 0 <= b < moved.windows.len() && a != b implies moved.windows[a].entity
            != moved.windows[b].entity by {
            assert(w.windows[a].entity == moved.windows[a].entity);
            assert(w.windows[b].entity == moved.windows[b].entity);
        }
    }
    lemma_sized_from(moved, moved, delta_ms, Seq::empty(), 0);
    let after = animated(w, delta_ms);
    assert(same_entities(w.windows, after.windows)) by {
        assert forall|i: int| 0 <= i < w.windows.len() implies (#[trigger] w.windows[i]).entity
            == after.windows[i].entity by {
            assert(moved.windows[i].entity == w.windows[i].entity);
        }
    }
    assert(unique(after.windows)) by {
        assert forall|a: int, b: int|
            0 <= a < after.windows.len() && 0 <= b < after.windows.len() && a != b implies after.windows[a].entity
            != after.windows[b].entity by {
            assert(w.windows[a].entity == after.windows[a].entity);
            assert(w.windows[b].entity == after.windows[b].entity);
        }
    }
}

/// Two points that are not apart are one point.
proof fn lemma_distance_zero(a: IVec2, b: IVec2)
    ensures
        distance(a, b) >= 0,
        distance(a, b) == 0 ==> a == b,
{
}

/// Every request to move ends: a window that is asked to move is asked
/// no longer after as many ticks as it is pixels away from where it is
/// to go, counted along the axes, and after one tick at the least;
/// provided that a tick takes it two pixels or further. A request on a
/// display that is not known, or to a place too far away for a step to
/// be told, ends with the first tick. A window that is not asked to move
/// is not asked to by the animation.
pub proof fn lemma_move_ends(w: WorldView, k: int, delta_ms: u64, n: nat)
    requires
        unique(w.windows),
        0 <= k < w.windows.len(),
        w.windows[k].reposition matches Some(asked) ==> {
            &&& n >= 1
            &&& display_index(w.displays, asked.display_id, 0) < w.displays.len() ==> step_of(
                w,
                asked.display_id,
                delta_ms,
            ) >= 2
            &&& in_reach(w.windows[k].window.frame.min, asked.origin) ==> n >= distance(
                w.windows[k].window.frame.min,
                asked.origin,
            )
        },
    ensures
        animated_for(w, delta_ms, n).windows.len() == w.windows.len(),
        animated_for(w, delta_ms, n).windows[k].reposition.is_none(),
    decreases n,
{
    if n > 0 {
        let after = animated(w, delta_ms);
        lemma_animated(w, delta_ms);
        let entry = w.windows[k];
        let moved = moved_pass(w, delta_ms).windows[k];
        assert(moved == moved_entry(w, k, delta_ms));
        assert(after.windows[k] == sized_entry(moved_pass(w, delta_ms), k, delta_ms));
        if moved.reposition.is_some() {
            assert(after.windows[k] == moved);
            let asked = entry.reposition.unwrap();
            let position = moved_towards(
                entry.window.frame.min,
                asked.origin,
                step_of(w, asked.display_id, delta_ms),
            );
            lemma_step_progress(
                entry.window.frame.min,
                asked.origin,
                step_of(w, asked.display_id, delta_ms),
            );
            lemma_distance_zero(position, asked.origin);
            assert(moved.window.frame.min == position);
        }
        lemma_move_ends(after, k, delta_ms, (n - 1) as nat);
    }
}

/// Every request to take a size ends, once the window is asked to move
/// no longer: a window that is asked to take a size, and not to move, is
/// asked no longer after as many ticks as its extent is pixels away from
/// the one it is to take, counted along the axes, and after one tick at
/// the least; provided that a tick takes it two pixels or further and
/// that the frame it is to have fits the coordinates. A request on a
/// display that is not known, or for an extent too far away for a step
/// to be told, ends with the first tick. On the way the window is not
/// asked to move.
pub proof fn lemma_resize_ends(w: WorldView, k: int, delta_ms: u64, n: nat)
    requires
        unique(w.windows),
        0 <= k < w.windows.len(),
        w.windows[k].reposition.is_none(),
        w.windows[k].resize matches Some(asked) ==> {
            let frame = w.windows[k].window.frame;
            &&& n >= 1
            &&& display_index(w.displays, asked.display_id, 0) < w.displays.len() ==> step_of(
                w,
                asked.display_id,
                delta_ms,
            ) >= 2
            &&& fits_i32(frame.spec_width()) && fits_i32(frame.spec_height()) && in_reach(
                extent_of(frame),
                asked.size,
            ) ==> {
                &&& n >= distance(extent_of(frame), asked.size)
                &&& fits_i32(frame.min.x + asked.size.x)
                &&& fits_i32(frame.min.y + asked.size.y)
            }
        },
    ensures
        animated_for(w, delta_ms, n).windows.len() == w.windows.len(),
        animated_for(w, delta_ms, n).windows[k].reposition.is_none(),
        animated_for(w, delta_ms, n).windows[k].resize.is_none(),
    decreases n,
{
    if n > 0 {
        let after = animated(w, delta_ms);
        lemma_animated(w, delta_ms);
        let entry = w.windows[k];
        let moved = moved_pass(w, delta_ms);
        assert(moved.windows[k] == moved_entry(w, k, delta_ms));
        assert(moved.windows[k] == entry);
        assert(after.windows[k] == sized_entry(moved, k, delta_ms));
        if after.windows[k].resize.is_some() {
            let asked = entry.resize.unwrap();
            let frame = entry.window.frame;
            let size = moved_towards(
                extent_of(frame),
                asked.size,
                step_of(w, asked.display_id, delta_ms),
            );
            lemma_step_progress(
                extent_of(frame),
                asked.size,
                step_of(w, asked.display_id, delta_ms),
            );
            lemma_distance_zero(size, asked.size);
            let next = after.windows[k].window.frame;
            assert(next == sized_to(frame, size));
            assert(extent_of(next) == size);
        }
        lemma_resize_ends(after, k, delta_ms, (n - 1) as nat);
    }
}

} // verus!
