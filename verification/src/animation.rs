//! Moving and resizing windows step by step toward their targets.

use vstd::prelude::*;
use crate::ecs::DisplayId;
use crate::geometry::{fits_i32, IVec2, Origin, Size};
use crate::layout::Entity;
use crate::manager::{moved_to, sized_to, Window};
use crate::ratio::{saturated, Ratio};
use crate::events::{padded_origin, padded_size};
use crate::triggers::Effect;
use crate::world::{entry_of, has_window, with_window, DisplayEntry, WindowEntry, World, WorldView};

verus! {

/// Index of the first display at or after `from` that the operating
/// system knows as `id`, or the number of displays.
pub open spec fn display_index(displays: Seq<DisplayEntry>, id: DisplayId, from: int) -> int
    decreases displays.len() - from,
{
    if from < 0 || from >= displays.len() {
        displays.len() as int
    } else if displays[from].display.id() == id {
        from
    } else {
        display_index(displays, id, from + 1)
    }
}

/// How far a window may travel in a step: the speed, in thousandths of the
/// display's width per second, times the time that passed, in
/// milliseconds, times the width of the display, rounded down; but no
/// further than `u64` can say.
pub open spec fn travel(speed: u64, delta_ms: u64, display_width: i32) -> int {
    let exact = if display_width <= 0 {
        0
    } else {
        (speed * delta_ms * display_width) / 1_000_000
    };
    if exact > u64::MAX {
        u64::MAX as int
    } else {
        exact
    }
}

/// Computes how many pixels a window may travel in one step.
pub fn step_budget(speed: u64, delta_ms: u64, display_width: i32) -> (r: u64)
    ensures
        r == travel(speed, delta_ms, display_width),
{
    if display_width <= 0 {
        return 0;
    }
    let width: u128 = display_width as u128;
    assert(speed * delta_ms <= 0xffff_ffff_ffff_ffff * 0xffff_ffff_ffff_ffff) by (nonlinear_arith)
        requires
            0 <= speed <= 0xffff_ffff_ffff_ffff,
            0 <= delta_ms <= 0xffff_ffff_ffff_ffff,
    ;
    let area: u128 = speed as u128 * delta_ms as u128;
    if area > 0xffff_ffff_ffff_ffff * 1_000_000 {
        assert((area * width) / 1_000_000 >= 0xffff_ffff_ffff_ffff) by (nonlinear_arith)
            requires
                area > 0xffff_ffff_ffff_ffff * 1_000_000,
                width >= 1,
        ;
        assert(speed * delta_ms * display_width == area * width) by (nonlinear_arith)
            requires
                area == speed * delta_ms,
                width == display_width,
        ;
        return 0xffff_ffff_ffff_ffff;
    }
    assert(area * width <= 0xffff_ffff_ffff_ffff * 1_000_000 * 0x7fff_ffff) by (nonlinear_arith)
        requires
            0 <= area <= 0xffff_ffff_ffff_ffff * 1_000_000,
            0 <= width <= 0x7fff_ffff,
    ;
    let product: u128 = area * width;
    assert(speed * delta_ms * display_width == product) by (nonlinear_arith)
        requires
            area == speed * delta_ms,
            width == display_width,
            product == area * width,
    ;
    let exact: u128 = product / 1_000_000;
    if exact > 0xffff_ffff_ffff_ffff {
        0xffff_ffff_ffff_ffff
    } else {
        exact as u64
    }
}

impl WorldView {
    /// The window `e` is asked to move on a display that is known, and
    /// `position` is where it is asked to move.
    pub open spec fn arrives(self, e: Entity, position: Origin) -> bool {
        has_window(self.windows, e) && entry_of(self.windows, e).reposition.is_some()
            && display_index(
            self.displays,
            entry_of(self.windows, e).reposition.unwrap().display_id,
            0,
        ) < self.displays.len() && entry_of(self.windows, e).reposition.unwrap().origin
            == position
    }

    /// The window `e` is asked to take a size on a display that is known
    /// and is not asked to move, and `size` is the size it is asked to
    /// take.
    pub open spec fn reaches(self, e: Entity, size: Size) -> bool {
        has_window(self.windows, e) && entry_of(self.windows, e).resize.is_some() && entry_of(
            self.windows,
            e,
        ).reposition.is_none() && display_index(
            self.displays,
            entry_of(self.windows, e).resize.unwrap().display_id,
            0,
        ) < self.displays.len() && entry_of(self.windows, e).resize.unwrap().size == size
    }

    /// The model after the window `e`, which is on its way to where it
    /// was asked to move, arrived at `position`: its frame is there, and
    /// where that is the target, the request is fulfilled. Where the
    /// display it is asked to move on is not known, the request is given
    /// up and the window stays where it is. Nothing happens where the
    /// window is not asked to move.
    pub open spec fn window_moved(self, e: Entity, position: Origin) -> WorldView {
        if has_window(self.windows, e) && entry_of(self.windows, e).reposition.is_some()
            && display_index(
            self.displays,
            entry_of(self.windows, e).reposition.unwrap().display_id,
            0,
        ) >= self.displays.len() {
            WorldView {
                windows: with_window(
                    self.windows,
                    e,
                    WindowEntry { reposition: None, ..entry_of(self.windows, e) },
                ),
                ..self
            }
        } else if has_window(self.windows, e) && entry_of(self.windows, e).reposition.is_some() {
            let entry = entry_of(self.windows, e);
            WorldView {
                windows: with_window(
                    self.windows,
                    e,
                    WindowEntry {
                        window: Window {
                            frame: moved_to(entry.window.frame, position),
                            ..entry.window
                        },
                        reposition: if entry.reposition.unwrap().origin == position {
                            None
                        } else {
                            entry.reposition
                        },
                        ..entry
                    },
                ),
                ..self
            }
        } else {
            self
        }
    }

    /// The model after the window `e`, which is on its way to the size it
    /// was asked to take, reached the size `size`: its frame has that
    /// size, its width is noted as a fraction of the display's, and where
    /// that is the target, the request is fulfilled. Where the display
    /// is not known, the request is given up and the window stays as it
    /// is. Nothing happens where the window is not asked to take a size
    /// or is still asked to move.
    pub open spec fn window_sized(self, e: Entity, size: Size) -> WorldView {
        if has_window(self.windows, e) && entry_of(self.windows, e).resize.is_some() && entry_of(
            self.windows,
            e,
        ).reposition.is_none() && display_index(
            self.displays,
            entry_of(self.windows, e).resize.unwrap().display_id,
            0,
        ) >= self.displays.len() {
            WorldView {
                windows: with_window(
                    self.windows,
                    e,
                    WindowEntry { resize: None, ..entry_of(self.windows, e) },
                ),
                ..self
            }
        } else if has_window(self.windows, e) && entry_of(self.windows, e).resize.is_some()
            && entry_of(self.windows, e).reposition.is_none() {
            let entry = entry_of(self.windows, e);
            let display = self.displays[display_index(
                self.displays,
                entry.resize.unwrap().display_id,
                0,
            )].display;
            let width = saturated(display.bounds().spec_width());
            let frame = sized_to(entry.window.frame, size);
            WorldView {
                windows: with_window(
                    self.windows,
                    e,
                    WindowEntry {
                        window: Window {
                            frame,
                            width_ratio: if width > 0 {
                                Ratio(Ratio::spec_between(frame.spec_width(), width) as i32)
                            } else {
                                entry.window.width_ratio
                            },
                            ..entry.window
                        },
                        resize: if entry.resize.unwrap().size == size {
                            None
                        } else {
                            entry.resize
                        },
                        ..entry
                    },
                ),
                ..self
            }
        } else {
            self
        }
    }
}

impl World {
    /// Finds the display that the operating system knows as `id`.
    pub fn find_display(&self, id: DisplayId) -> (r: Option<usize>)
        ensures
            match r {
                Some(i) => i == display_index(self.displays@, id, 0) && i < self.displays@.len(),
                None => display_index(self.displays@, id, 0) == self.displays@.len(),
            },
    {
        let mut i: usize = 0;
        while i < self.displays.len()
            invariant
                i <= self.displays.len(),
                display_index(self.displays@, id, 0) == display_index(
                    self.displays@,
                    id,
                    i as int,
                ),
            decreases self.displays.len() - i,
        {
            if self.displays[i].display.id() == id {
                return Some(i);
            }
            i += 1;
        }
        None
    }

    /// Notes that the window `entity` was moved to `position` on its way
    /// to its target. Returns whether it has arrived.
    pub fn animate_window(&mut self, entity: Entity, position: Origin) -> (arrived: bool)
        requires
            old(self).wf(),
        ensures
            final(self).wf(),
            final(self)@ == old(self)@.window_moved(entity, position),
            arrived == old(self)@.arrives(entity, position),
    {
        let entry = match self.windows.get_managed(entity) {
            Some(entry) => entry,
            None => {
                return false;
            },
        };
        let marker = match entry.reposition {
            Some(marker) => marker,
            None => {
                return false;
            },
        };
        if self.find_display(marker.display_id).is_none() {
            self.windows.put(WindowEntry { reposition: None, ..entry });
            return false;
        }
        let mut window = entry.window;
        window.reposition(position);
        let arrived = marker.origin == position;
        self.windows.put(
            WindowEntry {
                window,
                reposition: if arrived {
                    None
                } else {
                    entry.reposition
                },
                ..entry
            },
        );
        arrived
    }

    /// Notes that the window `entity` was given the size `size` on its
    /// way to its target. Returns whether it has reached it.
    pub fn animate_resize_window(&mut self, entity: Entity, size: Size) -> (arrived: bool)
        requires
            old(self).wf(),
        ensures
            final(self).wf(),
            final(self)@ == old(self)@.window_sized(entity, size),
            arrived == old(self)@.reaches(entity, size),
    {
        let entry = match self.windows.get_managed(entity) {
            Some(entry) => entry,
            None => {
                return false;
            },
        };
        let marker = match entry.resize {
            Some(marker) => marker,
            None => {
                return false;
            },
        };
        if entry.reposition.is_some() {
            return false;
        }
        let display = match self.find_display(marker.display_id) {
            Some(i) => self.displays[i].display,
            None => {
                self.windows.put(WindowEntry { resize: None, ..entry });
                return false;
            },
        };
        let mut window = entry.window;
        window.resize(size, display.width());
        let arrived = marker.size == size;
        self.windows.put(
            WindowEntry {
                window,
                resize: if arrived {
                    None
                } else {
                    entry.resize
                },
                ..entry
            },
        );
        arrived
    }
}

/// `t` is how far a step of the length `b` goes along an axis on which
/// the target is `d` away, where the square of the whole distance is
/// `s`: the whole number of pixels in `d * b / sqrt(s)`.
pub open spec fn is_share(t: int, d: int, b: int, s: int) -> bool {
    0 <= t && t * t * s <= d * d * b * b < (t + 1) * (t + 1) * s
}

/// How far a step of the length `b` goes along an axis on which the
/// target is `d` away, rounded down.
pub open spec fn share(d: int, b: int, s: int) -> int {
    choose|t: int| is_share(t, d, b, s)
}

proof fn lemma_share_unique(t1: int, t2: int, d: int, b: int, s: int)
    requires
        s > 0,
        is_share(t1, d, b, s),
        is_share(t2, d, b, s),
    ensures
        t1 == t2,
{
    if t1 < t2 {
        assert((t1 + 1) * (t1 + 1) * s <= t2 * t2 * s) by (nonlinear_arith)
            requires
                0 <= t1 + 1 <= t2,
                s > 0,
        ;
    } else if t2 < t1 {
        assert((t2 + 1) * (t2 + 1) * s <= t1 * t1 * s) by (nonlinear_arith)
            requires
                0 <= t2 + 1 <= t1,
                s > 0,
        ;
    }
}

/// Where a coordinate that is at `c` and has `d` to go gets in a step of
/// the length `b` toward a target whose distance has the square `s`: the
/// exact place on the line to the target, rounded toward zero.
pub open spec fn axis_moved(c: int, d: int, b: int, s: int) -> int {
    let size = if d >= 0 {
        d
    } else {
        -d
    };
    let t = share(size, b, s);
    let more = if t * t * s == size * size * b * b {
        t
    } else {
        t + 1
    };
    let down = if d >= 0 {
        t
    } else {
        -more
    };
    let up = if d >= 0 {
        more
    } else {
        -t
    };
    if c + down >= 0 {
        c + down
    } else {
        c + up
    }
}

/// Where a point gets in a step of at most `budget` pixels toward
/// `target`: to the target where that is within reach, and else as far
/// along the straight line to it as the budget allows, each coordinate
/// rounded toward zero.
pub open spec fn moved_towards(current: IVec2, target: IVec2, budget: int) -> IVec2 {
    let dx = target.x - current.x;
    let dy = target.y - current.y;
    let s = dx * dx + dy * dy;
    if budget * budget >= s {
        target
    } else {
        IVec2 {
            x: axis_moved(current.x as int, dx, budget, s) as i32,
            y: axis_moved(current.y as int, dy, budget, s) as i32,
        }
    }
}

/// The distance of two points, counted along the axes.
pub open spec fn distance(a: IVec2, b: IVec2) -> int {
    (if a.x >= b.x {
        a.x - b.x
    } else {
        b.x - a.x
    }) + (if a.y >= b.y {
        a.y - b.y
    } else {
        b.y - a.y
    })
}

/// Where a point is after `n` steps of at most `budget` pixels each.
pub open spec fn moved_steps(current: IVec2, target: IVec2, budget: int, n: nat) -> IVec2
    decreases n,
{
    if n == 0 {
        current
    } else {
        moved_steps(moved_towards(current, target, budget), target, budget, (n - 1) as nat)
    }
}

fn find_share(size: u64, budget: u64, square: u64) -> (r: (u64, bool))
    requires
        size < 0x8000_0000,
        square > 0,
        square < 0x8000_0000_0000_0000,
        budget * budget < square,
        size * size <= square,
    ensures
        is_share(r.0 as int, size as int, budget as int, square as int),
        r.0 as int == share(size as int, budget as int, square as int),
        r.1 == (r.0 * r.0 * square == size * size * budget * budget),
        r.0 <= size,
{
    assert(budget < 0x1_0000_0000) by (nonlinear_arith)
        requires
            budget * budget < square,
            square < 0x8000_0000_0000_0000,
    ;
    assert(size * budget < 0x8000_0000 * 0x1_0000_0000) by (nonlinear_arith)
        requires
            size < 0x8000_0000,
            budget < 0x1_0000_0000,
    ;
    let reach: u128 = size as u128 * budget as u128;
    assert(reach * reach < 0x8000_0000_0000_0000 * 0x8000_0000_0000_0000) by (nonlinear_arith)
        requires
            reach < 0x8000_0000 * 0x1_0000_0000,
    ;
    let goal: u128 = reach * reach;
    assert(goal == size * size * budget * budget) by (nonlinear_arith)
        requires
            goal == reach * reach,
            reach == size * budget,
    ;
    let mut low: u64 = 0;
    let mut high: u64 = size;
    assert(low * low * square == 0) by (nonlinear_arith)
        requires
            low == 0,
    ;
    assert((size + 1) * (size + 1) * square > size * size * budget * budget) by (nonlinear_arith)
        requires
            budget * budget < square,
            square > 0,
            size >= 0,
    ;
    while low < high
        invariant
            low <= high <= size,
            size < 0x8000_0000,
            0 < square < 0x8000_0000_0000_0000,
            goal == size * size * budget * budget,
            low * low * square <= goal,
            goal < (high + 1) * (high + 1) * square,
        decreases high - low,
    {
        let mid: u64 = low + (high - low + 1) / 2;
        assert(mid * mid < 0x8000_0000 * 0x8000_0000 && mid * mid * square < 0x8000_0000
            * 0x8000_0000 * 0x8000_0000_0000_0000) by (nonlinear_arith)
            requires
                mid < 0x8000_0000,
                0 < square < 0x8000_0000_0000_0000,
        ;
        let reached: u128 = (mid as u128 * mid as u128) * square as u128;
        if reached <= goal {
            low = mid;
        } else {
            high = mid - 1;
        }
    }
    assert(low * low < 0x8000_0000 * 0x8000_0000 && low * low * square < 0x8000_0000 * 0x8000_0000
        * 0x8000_0000_0000_0000) by (nonlinear_arith)
        requires
            low < 0x8000_0000,
            0 < square < 0x8000_0000_0000_0000,
    ;
    let exact = (low as u128 * low as u128) * square as u128 == goal;
    proof {
        assert(is_share(low as int, size as int, budget as int, square as int));
        lemma_share_unique(
            low as int,
            share(size as int, budget as int, square as int),
            size as int,
            budget as int,
            square as int,
        );
    }
    (low, exact)
}

fn move_axis(c: i32, d: i32, budget: u64, square: u64) -> (r: i32)
    requires
        d > i32::MIN,
        square > 0,
        square < 0x8000_0000_0000_0000,
        budget * budget < square,
        d * d <= square,
        fits_i32(c + d),
    ensures
        r == axis_moved(c as int, d as int, budget as int, square as int),
        d >= 0 ==> c <= r <= c + d,
        d < 0 ==> c + d <= r <= c,
{
    let size: u64 = if d >= 0 {
        d as u64
    } else {
        (-(d as i64)) as u64
    };
    assert(size * size == d * d) by (nonlinear_arith)
        requires
            size == d || size == -d,
    ;
    let (t, exact) = find_share(size, budget, square);
    let more: i64 = if exact {
        t as i64
    } else {
        t as i64 + 1
    };
    proof {
        if !exact && t == size {
            assert(size * size * square > size * size * budget * budget || size == 0)
                by (nonlinear_arith)
                requires
                    budget * budget < square,
                    size >= 0,
            ;
            assert(t * t * square <= size * size * budget * budget);
            if size == 0 {
                assert(t * t * square == 0) by (nonlinear_arith)
                    requires
                        t == 0,
                ;
                assert(size * size * budget * budget == 0) by (nonlinear_arith)
                    requires
                        size == 0,
                ;
            }
        }
    }
    let down: i64 = if d >= 0 {
        t as i64
    } else {
        -more
    };
    let up: i64 = if d >= 0 {
        more
    } else {
        -(t as i64)
    };
    if c as i64 + down >= 0 {
        (c as i64 + down) as i32
    } else {
        (c as i64 + up) as i32
    }
}

/// Moves a point a step of at most `budget` pixels toward `target`.
pub fn move_towards(current: IVec2, target: IVec2, budget: u64) -> (r: IVec2)
    requires
        fits_i32(target.x - current.x),
        fits_i32(target.y - current.y),
        target.x - current.x > i32::MIN,
        target.y - current.y > i32::MIN,
    ensures
        r == moved_towards(current, target, budget as int),
{
    let dx: i32 = target.x - current.x;
    let dy: i32 = target.y - current.y;
    assert(0 <= dx * dx <= 0x7fff_ffff * 0x7fff_ffff && 0 <= dy * dy <= 0x7fff_ffff * 0x7fff_ffff)
        by (nonlinear_arith)
        requires
            -0x7fff_ffff <= dx <= 0x7fff_ffff,
            -0x7fff_ffff <= dy <= 0x7fff_ffff,
    ;
    let across: i64 = dx as i64 * dx as i64;
    let along: i64 = dy as i64 * dy as i64;
    let square: u64 = (across + along) as u64;
    if budget >= 0x1_0000_0000 {
        assert(budget * budget >= square) by (nonlinear_arith)
            requires
                budget >= 0x1_0000_0000,
                square <= 2 * 0x7fff_ffff * 0x7fff_ffff,
        ;
        return target;
    }
    assert(budget * budget <= 0xffff_ffff * 0xffff_ffff) by (nonlinear_arith)
        requires
            budget <= 0xffff_ffff,
    ;
    if budget * budget >= square {
        return target;
    }
    assert(dx * dx <= square && dy * dy <= square) by (nonlinear_arith)
        requires
            square == dx * dx + dy * dy,
    ;
    IVec2 {
        x: move_axis(current.x, dx, budget, square),
        y: move_axis(current.y, dy, budget, square),
    }
}

proof fn lemma_share_exists(size: int, b: int, s: int, k: int)
    requires
        0 <= k <= size,
        0 <= b,
        b * b < s,
        k * k * s <= size * size * b * b,
    ensures
        exists|t: int| is_share(t, size, b, s) && k <= t <= size,
    decreases size - k,
{
    if (k + 1) * (k + 1) * s > size * size * b * b {
        assert(is_share(k, size, b, s));
    } else {
        if k == size {
            assert((size + 1) * (size + 1) * s > size * size * b * b) by (nonlinear_arith)
                requires
                    b * b < s,
                    size >= 0,
            ;
        }
        lemma_share_exists(size, b, s, k + 1);
    }
}

/// How far a step goes along an axis: not back, not past the target, and
/// not nowhere on an axis on which the target is at least as far as on
/// the other, where the step is two pixels long or longer.
proof fn lemma_axis_moved(c: int, d: int, b: int, s: int)
    requires
        0 <= b,
        b * b < s,
        d * d <= s,
    ensures
        d >= 0 ==> c <= axis_moved(c, d, b, s) <= c + d,
        d < 0 ==> c + d <= axis_moved(c, d, b, s) <= c,
        b >= 2 && 2 * d * d >= s ==> axis_moved(c, d, b, s) != c,
{
    let size = if d >= 0 {
        d
    } else {
        -d
    };
    assert(size * size == d * d) by (nonlinear_arith)
        requires
            size == d || size == -d,
    ;
    assert(0 * 0 * s <= size * size * b * b) by (nonlinear_arith)
        requires
            size >= 0,
            b >= 0,
    ;
    lemma_share_exists(size, b, s, 0);
    let t = share(size, b, s);
    let witness = choose|t: int| is_share(t, size, b, s) && 0 <= t <= size;
    lemma_share_unique(t, witness, size, b, s);
    if t == size {
        if size > 0 {
            assert(size * size * s > size * size * b * b) by (nonlinear_arith)
                requires
                    b * b < s,
                    size > 0,
            ;
        } else {
            assert(t * t * s == 0 && size * size * b * b == 0) by (nonlinear_arith)
                requires
                    t == 0,
                    size == 0,
            ;
        }
    }
    if b >= 2 && 2 * d * d >= s {
        assert(2 * d * d == 2 * (size * size)) by (nonlinear_arith)
            requires
                size * size == d * d,
        ;
        if t == 0 {
            assert(size * size * b * b >= s) by (nonlinear_arith)
                requires
                    b >= 2,
                    2 * (size * size) >= s,
                    s > 0,
            ;
            assert((0 + 1) * (0 + 1) * s == s) by (nonlinear_arith);
        }
    }
}

/// A step that does not arrive gets strictly closer to the target along
/// the axes, without leaving the box between where it starts and the
/// target; provided that it is two pixels long or longer.
pub proof fn lemma_step_progress(current: IVec2, target: IVec2, budget: int)
    requires
        budget >= 2,
    ensures
        ({
            let next = moved_towards(current, target, budget);
            &&& next == target || distance(next, target) < distance(current, target)
            &&& current.x <= target.x ==> current.x <= next.x <= target.x
            &&& current.x >= target.x ==> current.x >= next.x >= target.x
            &&& current.y <= target.y ==> current.y <= next.y <= target.y
            &&& current.y >= target.y ==> current.y >= next.y >= target.y
        }),
{
    let dx = target.x - current.x;
    let dy = target.y - current.y;
    let s = dx * dx + dy * dy;
    if budget * budget < s {
        assert(dx * dx <= s && dy * dy <= s && (2 * dx * dx >= s || 2 * dy * dy >= s))
            by (nonlinear_arith)
            requires
                s == dx * dx + dy * dy,
        ;
        lemma_axis_moved(current.x as int, dx, budget, s);
        lemma_axis_moved(current.y as int, dy, budget, s);
    }
}

/// A window that is moved step by step arrives: after as many steps as
/// its target is pixels away along the axes, at the latest, it is at its
/// target, provided that a step is two pixels long or longer.
pub proof fn lemma_animation_converges(current: IVec2, target: IVec2, budget: int, n: nat)
    requires
        budget >= 2,
        n >= distance(current, target),
    ensures
        moved_steps(current, target, budget, n) == target,
    decreases n,
{
    if n == 0 {
        assert(current == target);
    } else {
        let next = moved_towards(current, target, budget);
        lemma_step_progress(current, target, budget);
        if next == target {
            lemma_stays(target, budget, (n - 1) as nat);
        } else {
            lemma_animation_converges(next, target, budget, (n - 1) as nat);
        }
    }
}

proof fn lemma_stays(target: IVec2, budget: int, n: nat)
    ensures
        moved_steps(target, target, budget, n) == target,
    decreases n,
{
    if n > 0 {
        assert(budget * budget >= 0) by (nonlinear_arith);
        lemma_stays(target, budget, (n - 1) as nat);
    }
}

/// Whether a step from `current` toward `target` can be told: the two
/// are not further apart along an axis than `i32` can say.
pub open spec fn in_reach(current: IVec2, target: IVec2) -> bool {
    &&& -0x7fff_ffff <= target.x - current.x <= 0x7fff_ffff
    &&& -0x7fff_ffff <= target.y - current.y <= 0x7fff_ffff
}

fn reachable(current: IVec2, target: IVec2) -> (r: bool)
    ensures
        r == in_reach(current, target),
{
    let dx: i64 = target.x as i64 - current.x as i64;
    let dy: i64 = target.y as i64 - current.y as i64;
    -0x7fff_ffff <= dx && dx <= 0x7fff_ffff && -0x7fff_ffff <= dy && dy <= 0x7fff_ffff
}

impl WorldView {
    /// Whether the window at `k` is asked to move on a display that is
    /// not known.
    pub open spec fn move_given_up(self, k: int) -> bool {
        self.windows[k].reposition.is_some() && display_index(
            self.displays,
            self.windows[k].reposition.unwrap().display_id,
            0,
        ) >= self.displays.len()
    }

    /// Whether the window at `k` is asked to take a size on a display
    /// that is not known, and is not asked to move.
    pub open spec fn size_given_up(self, k: int) -> bool {
        self.windows[k].resize.is_some() && self.windows[k].reposition.is_none() && display_index(
            self.displays,
            self.windows[k].resize.unwrap().display_id,
            0,
        ) >= self.displays.len()
    }

    /// Where the window at `k` is after a step of the animation that
    /// moves it, if it takes one: it does where it is asked to move on a
    /// display that is known. A window that is too far from where it is
    /// asked to move for a step to be told goes there at once.
    pub open spec fn move_step(self, k: int, delta_ms: u64) -> Option<IVec2> {
        let entry = self.windows[k];
        if entry.reposition.is_none() || display_index(
            self.displays,
            entry.reposition.unwrap().display_id,
            0,
        ) >= self.displays.len() {
            None
        } else if !in_reach(entry.window.frame.min, entry.reposition.unwrap().origin) {
            Some(entry.reposition.unwrap().origin)
        } else {
            let display = self.displays[display_index(
                self.displays,
                entry.reposition.unwrap().display_id,
                0,
            )].display;
            Some(
                moved_towards(
                    entry.window.frame.min,
                    entry.reposition.unwrap().origin,
                    travel(
                        self.config.animation_speed(),
                        delta_ms,
                        saturated(display.bounds().spec_width()) as i32,
                    ),
                ),
            )
        }
    }

    /// The extent of the window at `k` after a step of the animation that
    /// resizes it, if it takes one: it does where it is asked to take a
    /// size on a display that is known and is not asked to move. A
    /// window whose extent cannot be told, or is too far from the one it
    /// is asked to take for a step to be told, takes that size at once.
    pub open spec fn size_step(self, k: int, delta_ms: u64) -> Option<IVec2> {
        let entry = self.windows[k];
        let frame = entry.window.frame;
        if entry.resize.is_none() || entry.reposition.is_some() || display_index(
            self.displays,
            entry.resize.unwrap().display_id,
            0,
        ) >= self.displays.len() {
            None
        } else if !fits_i32(frame.spec_width()) || !fits_i32(frame.spec_height()) || !in_reach(
            IVec2 { x: frame.spec_width() as i32, y: frame.spec_height() as i32 },
            entry.resize.unwrap().size,
        ) {
            Some(entry.resize.unwrap().size)
        } else {
            let display = self.displays[display_index(
                self.displays,
                entry.resize.unwrap().display_id,
                0,
            )].display;
            Some(
                moved_towards(
                    IVec2 { x: frame.spec_width() as i32, y: frame.spec_height() as i32 },
                    entry.resize.unwrap().size,
                    travel(
                        self.config.animation_speed(),
                        delta_ms,
                        saturated(display.bounds().spec_width()) as i32,
                    ),
                ),
            )
        }
    }

    /// The model after the windows from the `k`-th on, as `seen` has
    /// them, took a step of the animation that moves them, and what the
    /// outside has to do for it.
    pub open spec fn moved_from(
        self,
        seen: WorldView,
        delta_ms: u64,
        told: Seq<Effect>,
        k: int,
    ) -> (WorldView, Seq<Effect>)
        decreases seen.windows.len() - k,
    {
        if k < 0 || k >= seen.windows.len() {
            (self, told)
        } else {
            match seen.move_step(k, delta_ms) {
                Some(position) => self.window_moved(seen.windows[k].entity, position).moved_from(
                    seen,
                    delta_ms,
                    told.push(
                        Effect::Reposition {
                            moved: seen.windows[k].entity,
                            origin: padded_origin(
                                position,
                                seen.windows[k].window.horizontal_padding as int,
                                seen.windows[k].window.vertical_padding as int,
                            ),
                        },
                    ),
                    k + 1,
                ),
                None => if seen.move_given_up(k) {
                    self.window_moved(
                        seen.windows[k].entity,
                        seen.windows[k].window.frame.min,
                    ).moved_from(seen, delta_ms, told, k + 1)
                } else {
                    self.moved_from(seen, delta_ms, told, k + 1)
                },
            }
        }
    }

    /// The model after the windows from the `k`-th on, as `seen` has
    /// them, took a step of the animation that resizes them, and what
    /// the outside has to do for it.
    pub open spec fn sized_from(
        self,
        seen: WorldView,
        delta_ms: u64,
        told: Seq<Effect>,
        k: int,
    ) -> (WorldView, Seq<Effect>)
        decreases seen.windows.len() - k,
    {
        if k < 0 || k >= seen.windows.len() {
            (self, told)
        } else {
            match seen.size_step(k, delta_ms) {
                Some(size) => self.window_sized(seen.windows[k].entity, size).sized_from(
                    seen,
                    delta_ms,
                    told.push(
                        Effect::Resize {
                            sized: seen.windows[k].entity,
                            size: padded_size(
                                size,
                                seen.windows[k].window.horizontal_padding as int,
                                seen.windows[k].window.vertical_padding as int,
                            ),
                        },
                    ),
                    k + 1,
                ),
                None => if seen.size_given_up(k) {
                    self.window_sized(
                        seen.windows[k].entity,
                        seen.windows[k].resize.unwrap().size,
                    ).sized_from(seen, delta_ms, told, k + 1)
                } else {
                    self.sized_from(seen, delta_ms, told, k + 1)
                },
            }
        }
    }
}

impl World {
    /// Moves every window that is asked to move a step toward its target,
    /// as far as the speed of the animation takes it in `delta_ms`
    /// milliseconds. A window that arrives is no longer asked to move.
    pub fn animate_windows(&mut self, delta_ms: u64) -> (r: Vec<Effect>)
        requires
            old(self).wf(),
        ensures
            final(self).wf(),
            (final(self)@, r@) == old(self)@.moved_from(old(self)@, delta_ms, Seq::empty(), 0),
    {
        let seen = self.windows.snapshot();
        let speed = self.config.animation_speed();
        let mut told: Vec<Effect> = Vec::new();
        let mut k: usize = 0;
        while k < seen.all.len()
            invariant
                k <= seen.all.len(),
                self.wf(),
                seen@ == old(self)@.windows,
                speed == old(self)@.config.animation_speed(),
                self@ == (WorldView { windows: self.windows@, ..old(self)@ }),
                old(self)@.moved_from(old(self)@, delta_ms, Seq::empty(), 0) == self@.moved_from(
                    old(self)@,
                    delta_ms,
                    told@,
                    k as int,
                ),
            decreases seen.all.len() - k,
        {
            let entry = seen.all[k];
            if let Some(marker) = entry.reposition {
                match self.find_display(marker.display_id) {
                    Some(at) => {
                        let position = if reachable(entry.window.frame.min, marker.origin) {
                            let budget = step_budget(
                                speed,
                                delta_ms,
                                self.displays[at].display.width(),
                            );
                            move_towards(entry.window.frame.min, marker.origin, budget)
                        } else {
                            marker.origin
                        };
                        self.animate_window(entry.entity, position);
                        told.push(
                            Effect::Reposition {
                                moved: entry.entity,
                                origin: entry.window.os_origin(position),
                            },
                        );
                    },
                    None => {
                        self.animate_window(entry.entity, entry.window.frame.min);
                    },
                }
            }
            k += 1;
        }
        told
    }

    /// Resizes every window that is asked to take a size, and is not
    /// asked to move, a step toward that size. A window that reaches it
    /// is no longer asked to take it.
    pub fn animate_resize_windows(&mut self, delta_ms: u64) -> (r: Vec<Effect>)
        requires
            old(self).wf(),
        ensures
            final(self).wf(),
            (final(self)@, r@) == old(self)@.sized_from(old(self)@, delta_ms, Seq::empty(), 0),
    {
        let seen = self.windows.snapshot();
        let speed = self.config.animation_speed();
        let mut told: Vec<Effect> = Vec::new();
        let mut k: usize = 0;
        while k < seen.all.len()
            invariant
                k <= seen.all.len(),
                self.wf(),
                seen@ == old(self)@.windows,
                speed == old(self)@.config.animation_speed(),
                self@ == (WorldView { windows: self.windows@, ..old(self)@ }),
                old(self)@.sized_from(old(self)@, delta_ms, Seq::empty(), 0) == self@.sized_from(
                    old(self)@,
                    delta_ms,
                    told@,
                    k as int,
                ),
            decreases seen.all.len() - k,
        {
            let entry = seen.all[k];
            if let Some(marker) = entry.resize {
                if entry.reposition.is_none() {
                    match self.find_display(marker.display_id) {
                        Some(at) => {
                            let size = match crate::triggers::frame_extent_wide(
                                &entry.window.frame,
                            ) {
                                Some(extent) => if reachable(extent, marker.size) {
                                    let budget = step_budget(
                                        speed,
                                        delta_ms,
                                        self.displays[at].display.width(),
                                    );
                                    move_towards(extent, marker.size, budget)
                                } else {
                                    marker.size
                                },
                                None => marker.size,
                            };
                            self.animate_resize_window(entry.entity, size);
                            told.push(
                                Effect::Resize {
                                    sized: entry.entity,
                                    size: entry.window.os_size(size),
                                },
                            );
                        },
                        None => {
                            self.animate_resize_window(entry.entity, marker.size);
                        },
                    }
                }
            }
            k += 1;
        }
        told
    }
}

} // verus!
