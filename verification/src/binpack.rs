//! Sharing out the height of a viewport among the windows of a stack.

use vstd::prelude::*;

verus! {

/// The outcome of one attempt to give the first `count` windows of a stack
/// their share of the height, from the top down.
pub enum Fill {
    /// Every one of the `count` windows got a height.
    Done(Seq<int>),
    /// Some window neither fits below the ones above it nor leaves the rest
    /// their minimum: the attempt has to be repeated with fewer windows.
    Stop,
    /// The number of windows does not fit the arithmetic.
    Abort,
}

/// Integer division that rounds toward zero.
pub open spec fn trunc_div(a: int, d: int) -> int {
    if a >= 0 {
        a / d
    } else {
        -((-a) / d)
    }
}

/// The sum of a sequence.
pub open spec fn total(s: Seq<int>) -> int
    decreases s.len(),
{
    if s.len() == 0 {
        0
    } else {
        total(s.drop_last()) + s.last()
    }
}

/// A sequence of machine integers as mathematical integers.
pub open spec fn ints(s: Seq<i32>) -> Seq<int> {
    Seq::new(s.len(), |i: int| s[i] as int)
}

/// `pre` put in front of what an attempt yields.
pub open spec fn prepend(pre: Seq<int>, f: Fill) -> Fill {
    match f {
        Fill::Done(rest) => Fill::Done(pre + rest),
        Fill::Stop => Fill::Stop,
        Fill::Abort => Fill::Abort,
    }
}

/// One attempt, taken up at window `idx` with `remaining` height left.
///
/// A window lower than what remains keeps its height, but the last of the
/// `count` windows takes all that remains. A window that is not lower takes
/// all that remains, provided that this leaves every window from `idx` on
/// its minimum; otherwise the attempt stops.
pub open spec fn fill(h: Seq<i32>, min: int, count: int, idx: int, remaining: int) -> Fill
    decreases count - idx,
{
    if idx >= count || idx < 0 || idx >= h.len() {
        Fill::Done(Seq::empty())
    } else if h[idx] < remaining {
        let head = if idx + 1 == count {
            remaining
        } else {
            h[idx] as int
        };
        prepend(seq![head], fill(h, min, count, idx + 1, remaining - h[idx]))
    } else if h.len() - idx > i32::MAX {
        Fill::Abort
    } else if remaining >= min * (h.len() - idx) {
        prepend(seq![remaining], fill(h, min, count, idx + 1, 0))
    } else {
        Fill::Stop
    }
}

/// The largest number of leading windows, at most `count`, for which an
/// attempt does not stop.
pub open spec fn settle(h: Seq<i32>, min: int, total_height: int, count: int) -> int
    decreases count,
{
    if count <= 0 {
        0
    } else if fill(h, min, count, 0, total_height) is Stop {
        settle(h, min, total_height, count - 1)
    } else {
        count
    }
}

/// The heights of the windows of a stack of current heights `h` in a
/// viewport `total_height` high.
///
/// Where all windows settle, each has the height of its attempt. Where only
/// the first `c` do and `c > 0`, the first `c - 1` keep the height of their
/// attempt and all the others share equally, rounding toward zero, what
/// these leave; there is no answer where that share is under `min`. Where
/// none settles there is no answer either, unless the stack is empty.
pub open spec fn binpack(h: Seq<i32>, min: int, total_height: int) -> Option<Seq<int>> {
    let n = h.len() as int;
    let c = settle(h, min, total_height, n);
    match fill(h, min, c, 0, total_height) {
        Fill::Done(fixed) => {
            if n - c > i32::MAX {
                None
            } else if n - c > 0 && c > 0 {
                let kept = fixed.take(c - 1);
                let share = trunc_div(total_height - total(kept), n - c + 1);
                if share < min {
                    None
                } else {
                    Some(kept + Seq::new((n - c + 1) as nat, |i: int| share))
                }
            } else if c == 0 && n > 0 {
                None
            } else {
                Some(fixed)
            }
        },
        _ => None,
    }
}

pub proof fn lemma_total_push(s: Seq<int>, x: int)
    ensures
        total(s.push(x)) == total(s) + x,
{
    assert(s.push(x).drop_last() =~= s);
}

pub proof fn lemma_total_concat(a: Seq<int>, b: Seq<int>)
    ensures
        total(a + b) == total(a) + total(b),
    decreases b.len(),
{
    if b.len() == 0 {
        assert(a + b =~= a);
    } else {
        lemma_total_concat(a, b.drop_last());
        assert((a + b).drop_last() =~= a + b.drop_last());
    }
}

pub proof fn lemma_total_constant(n: nat, x: int)
    ensures
        total(Seq::new(n, |i: int| x)) == n * x,
    decreases n,
{
    let s = Seq::new(n, |i: int| x);
    if n > 0 {
        lemma_total_constant((n - 1) as nat, x);
        assert(s.drop_last() =~= Seq::new((n - 1) as nat, |i: int| x));
        assert(s.last() == x);
        assert(n * x == (n - 1) * x + x) by (nonlinear_arith);
    } else {
        assert(n * x == 0) by (nonlinear_arith)
            requires
                n == 0,
        ;
    }
}

/// What an attempt hands out is as long as the windows it was asked about,
/// and, where it hands out anything, adds up to the height it had left.
pub proof fn lemma_fill_done(h: Seq<i32>, min: int, count: int, idx: int, remaining: int)
    requires
        0 <= idx <= count <= h.len(),
        fill(h, min, count, idx, remaining) is Done,
    ensures
        fill(h, min, count, idx, remaining)->Done_0.len() == count - idx,
        idx < count ==> total(fill(h, min, count, idx, remaining)->Done_0) == remaining,
    decreases count - idx,
{
    if idx < count {
        let (head, next) = if h[idx] < remaining {
            (
                if idx + 1 == count {
                    remaining
                } else {
                    h[idx] as int
                },
                remaining - h[idx],
            )
        } else {
            (remaining, 0int)
        };
        let rest = fill(h, min, count, idx + 1, next);
        lemma_fill_done(h, min, count, idx + 1, next);
        let tail = rest->Done_0;
        lemma_total_concat(seq![head], tail);
        assert(seq![head] =~= Seq::<int>::empty().push(head));
        lemma_total_push(Seq::<int>::empty(), head);
        if idx + 1 == count {
            assert(tail =~= Seq::<int>::empty());
        }
    }
}

/// An attempt at no window at all never stops, so some count settles.
pub proof fn lemma_settle(h: Seq<i32>, min: int, total_height: int, count: int)
    requires
        0 <= count <= h.len(),
    ensures
        0 <= settle(h, min, total_height, count) <= count,
        !(fill(h, min, settle(h, min, total_height, count), 0, total_height) is Stop),
    decreases count,
{
    if count > 0 && fill(h, min, count, 0, total_height) is Stop {
        lemma_settle(h, min, total_height, count - 1);
    }
}

enum Pass {
    Done(Vec<i32>),
    Stop,
    Abort,
}

fn try_fill(heights: &[i32], min_height: i32, total_height: i32, count: usize) -> (r: Pass)
    requires
        count <= heights@.len(),
        forall|i: int| 0 <= i < heights@.len() ==> heights@[i] >= 0,
    ensures
        match r {
            Pass::Done(out) => fill(heights@, min_height as int, count as int, 0, total_height as int)
                == Fill::Done(ints(out@)),
            Pass::Stop => fill(heights@, min_height as int, count as int, 0, total_height as int)
                is Stop,
            Pass::Abort => fill(heights@, min_height as int, count as int, 0, total_height as int)
                is Abort,
        },
{
    let ghost h = heights@;
    let ghost m = min_height as int;
    let ghost c = count as int;
    let ghost whole = fill(h, m, c, 0, total_height as int);
    let mut output: Vec<i32> = Vec::new();
    let mut remaining: i32 = total_height;
    let mut idx: usize = 0;
    assert(prepend(ints(output@), whole) == whole) by {
        if let Fill::Done(rest) = whole {
            assert(ints(output@) + rest =~= rest);
        }
    }
    while idx < count
        invariant
            idx <= count <= heights@.len(),
            h == heights@,
            m == min_height as int,
            c == count as int,
            forall|i: int| 0 <= i < heights@.len() ==> heights@[i] >= 0,
            remaining <= total_height || remaining == 0,
            remaining >= total_height || remaining >= 0,
            whole == fill(h, m, c, 0, total_height as int),
            whole == prepend(ints(output@), fill(h, m, c, idx as int, remaining as int)),
        decreases count - idx,
    {
        let ghost before = ints(output@);
        let ghost here = fill(h, m, c, idx as int, remaining as int);
        let current = heights[idx];
        if current < remaining {
            let head = if idx + 1 == count {
                remaining
            } else {
                current
            };
            output.push(head);
            remaining = remaining - current;
            proof {
                let next = fill(h, m, c, idx + 1, remaining as int);
                assert(here == prepend(seq![head as int], next));
                assert(ints(output@) =~= before.push(head as int));
                if let Fill::Done(rest) = next {
                    assert(before + (seq![head as int] + rest) =~= before.push(head as int) + rest);
                }
            }
        } else {
            let left = heights.len() - idx;
            if left > 0x7fff_ffff {
                assert(here is Abort);
                return Pass::Abort;
            }
            assert(-0x8000_0000 * 0x7fff_ffff <= min_height * left <= 0x7fff_ffff * 0x7fff_ffff)
                by (nonlinear_arith)
                requires
                    -0x8000_0000 <= min_height <= 0x7fff_ffff,
                    0 <= left <= 0x7fff_ffff,
            ;
            if remaining as i64 >= min_height as i64 * left as i64 {
                output.push(remaining);
                proof {
                    let next = fill(h, m, c, idx + 1, 0);
                    assert(here == prepend(seq![remaining as int], next));
                    assert(ints(output@) =~= before.push(remaining as int));
                    if let Fill::Done(rest) = next {
                        assert(before + (seq![remaining as int] + rest) =~= before.push(
                            remaining as int,
                        ) + rest);
                    }
                }
                remaining = 0;
            } else {
                assert(here is Stop);
                return Pass::Stop;
            }
        }
        idx += 1;
    }
    proof {
        assert(ints(output@) + Seq::<int>::empty() =~= ints(output@));
    }
    Pass::Done(output)
}

/// Distributes `total_height` over the windows of a stack whose current
/// heights are `heights`, keeping what heights it can from the top down and
/// sharing the rest equally, no window under `min_height`.
pub fn binpack_heights(heights: &[i32], min_height: i32, total_height: i32) -> (r: Option<
    Vec<i32>,
>)
    requires
        heights_valid(heights@),
    ensures
        match r {
            Some(v) => binpack(heights@, min_height as int, total_height as int) == Some(
                ints(v@),
            ),
            None => binpack(heights@, min_height as int, total_height as int).is_none(),
        },
        r matches Some(v) ==> v@.len() == heights@.len(),
{
    proof {
        if heights@.len() >= 1 && binpack(
            heights@,
            min_height as int,
            total_height as int,
        ).is_some() {
            lemma_binpack_total(heights@, min_height, total_height);
        }
    }
    let ghost h = heights@;
    let ghost m = min_height as int;
    let ghost t = total_height as int;
    let n = heights.len();
    let mut count: usize = n;
    let mut output: Vec<i32> = Vec::new();
    let mut settled = false;
    while !settled
        invariant
            h == heights@,
            m == min_height as int,
            t == total_height as int,
            n == heights@.len(),
            count <= n,
            forall|i: int| 0 <= i < heights@.len() ==> heights@[i] >= 0,
            settle(h, m, t, n as int) == settle(h, m, t, count as int),
            !settled ==> output@.len() == 0,
            settled ==> fill(h, m, count as int, 0, t) == Fill::Done(ints(output@)),
            settled ==> settle(h, m, t, count as int) == count,
        decreases
                (if settled {
                    0
                } else {
                    count + 1
                }),
    {
        match try_fill(heights, min_height, total_height, count) {
            Pass::Abort => {
                return None;
            },
            Pass::Done(out) => {
                output = out;
                settled = true;
            },
            Pass::Stop => {
                count -= 1;
            },
        }
    }
    let spread = n - count;
    if spread > 0x7fff_ffff {
        return None;
    }
    proof {
        lemma_fill_done(h, m, count as int, 0, t);
    }
    if spread > 0 && count > 0 {
        let ghost fixed = ints(output@);
        let rest = output[count - 1];
        count -= 1;
        output.truncate(count);
        let ghost kept = ints(output@);
        proof {
            assert(kept =~= fixed.take(count as int));
            assert(fixed =~= kept.push(rest as int));
            lemma_total_push(kept, rest as int);
            assert(t - total(kept) == rest);
        }
        let parts: i64 = spread as i64 + 1;
        let share_wide: i64 = rest as i64 / parts;
        proof {
            lemma_trunc_div_bounds(rest as int, parts as int);
        }
        if share_wide < min_height as i64 {
            return None;
        }
        let share: i32 = share_wide as i32;
        let mut k: usize = 0;
        while k < spread + 1
            invariant
                k <= spread + 1,
                spread < 0x8000_0000,
                output@.len() == count + k,
                ints(output@) == kept + Seq::new(k as nat, |i: int| share as int),
            decreases spread + 1 - k,
        {
            let ghost before = ints(output@);
            output.push(share);
            proof {
                let after = kept + Seq::new((k + 1) as nat, |i: int| share as int);
                assert(ints(output@) =~= before.push(share as int));
                assert(before.push(share as int) =~= after);
            }
            k += 1;
        }
        return Some(output);
    }
    if count == 0 && n > 0 {
        return None;
    }
    Some(output)
}

/// Division toward zero by a positive number brings a number no further
/// from zero.
pub proof fn lemma_trunc_div_bounds(a: int, d: int)
    requires
        d >= 1,
    ensures
        a >= 0 ==> 0 <= trunc_div(a, d) <= a,
        a < 0 ==> a <= trunc_div(a, d) <= 0,
        a - d < trunc_div(a, d) * d <= a || a <= trunc_div(a, d) * d < a + d,
        a >= 0 ==> a - d < trunc_div(a, d) * d <= a,
{
    if a >= 0 {
        assert(0 <= a / d <= a && a - d < (a / d) * d <= a) by (nonlinear_arith)
            requires
                a >= 0,
                d >= 1,
        ;
    } else {
        let b = -a;
        assert(0 <= b / d <= b && b - d < (b / d) * d <= b) by (nonlinear_arith)
            requires
                b >= 0,
                d >= 1,
        ;
        assert((-(b / d)) * d == -((b / d) * d)) by (nonlinear_arith);
    }
}

/// Heights that are all at least zero, as the heights of frames are.
pub open spec fn heights_valid(h: Seq<i32>) -> bool {
    forall|i: int| 0 <= i < h.len() ==> h[i] >= 0
}

/// Where there is an answer, every window gets a height, and the heights
/// add up to the height of the viewport, short of at most what the equal
/// shares lose by rounding: less than one pixel for each window that
/// shares. Where all windows of a stack settle nothing is lost.
pub proof fn lemma_binpack_total(h: Seq<i32>, min: i32, total_height: i32)
    requires
        heights_valid(h),
        h.len() >= 1,
        binpack(h, min as int, total_height as int).is_some(),
    ensures
        ({
            let r = binpack(h, min as int, total_height as int).unwrap();
            let c = settle(h, min as int, total_height as int, h.len() as int);
            &&& r.len() == h.len()
            &&& c == h.len() ==> total(r) == total_height
            &&& total_height - (h.len() - c) <= total(r) <= total_height + (h.len() - c)
        }),
{
    let m = min as int;
    let t = total_height as int;
    let n = h.len() as int;
    let c = settle(h, m, t, n);
    lemma_settle(h, m, t, n);
    lemma_fill_done(h, m, c, 0, t);
    let fixed = fill(h, m, c, 0, t)->Done_0;
    if n - c > 0 {
        let kept = fixed.take(c - 1);
        let rest = t - total(kept);
        let share = trunc_div(rest, n - c + 1);
        let tail = Seq::new((n - c + 1) as nat, |i: int| share);
        lemma_total_concat(kept, tail);
        lemma_total_constant((n - c + 1) as nat, share);
        lemma_trunc_div_bounds(rest, n - c + 1);
        assert((n - c + 1) * share == share * (n - c + 1)) by (nonlinear_arith);
    }
}

/// Where every window is at least `min` high to begin with, no window comes
/// out lower than `min`.
pub proof fn lemma_binpack_floor(h: Seq<i32>, min: i32, total_height: i32)
    requires
        heights_valid(h),
        min >= 0,
        forall|i: int| 0 <= i < h.len() ==> h[i] >= min,
        binpack(h, min as int, total_height as int).is_some(),
    ensures
        forall|i: int|
            0 <= i < binpack(h, min as int, total_height as int).unwrap().len() ==> binpack(
                h,
                min as int,
                total_height as int,
            ).unwrap()[i] >= min,
{
    let m = min as int;
    let t = total_height as int;
    let n = h.len() as int;
    let c = settle(h, m, t, n);
    lemma_settle(h, m, t, n);
    lemma_fill_done(h, m, c, 0, t);
    lemma_fill_floor(h, m, c, 0, t);
}

proof fn lemma_fill_floor(h: Seq<i32>, min: int, count: int, idx: int, remaining: int)
    requires
        0 <= idx <= count <= h.len(),
        min >= 0,
        forall|i: int| 0 <= i < h.len() ==> h[i] >= min,
        fill(h, min, count, idx, remaining) is Done,
    ensures
        forall|i: int|
            0 <= i < fill(h, min, count, idx, remaining)->Done_0.len() ==> fill(
                h,
                min,
                count,
                idx,
                remaining,
            )->Done_0[i] >= min,
    decreases count - idx,
{
    if idx < count {
        let low = h[idx] < remaining;
        let next = if low {
            remaining - h[idx]
        } else {
            0int
        };
        lemma_fill_floor(h, min, count, idx + 1, next);
        if !low {
            assert(min * (h.len() - idx) >= min) by (nonlinear_arith)
                requires
                    min >= 0,
                    h.len() - idx >= 1,
            ;
        }
    }
}

/// Where no window settles, not even an attempt with the first window
/// alone gets through.
proof fn lemma_settle_zero(h: Seq<i32>, min: int, total_height: int, count: int)
    requires
        1 <= count <= h.len(),
        settle(h, min, total_height, count) == 0,
    ensures
        fill(h, min, 1, 0, total_height) is Stop,
    decreases count,
{
    if count > 1 {
        lemma_settle_zero(h, min, total_height, count - 1);
    }
}

/// Where no window can keep its own height and there is no answer, the
/// viewport is too low to give every window its minimum.
pub proof fn lemma_binpack_none(h: Seq<i32>, min: i32, total_height: i32)
    requires
        heights_valid(h),
        min >= 1,
        binpack(h, min as int, total_height as int).is_none(),
        settle(h, min as int, total_height as int, h.len() as int) <= 1,
    ensures
        h.len() * min > total_height,
{
    let m = min as int;
    let t = total_height as int;
    let n = h.len() as int;
    let c = settle(h, m, t, n);
    lemma_settle(h, m, t, n);
    if n > i32::MAX {
        assert(n * m > t) by (nonlinear_arith)
            requires
                n > 0x7fff_ffff,
                m >= 1,
                t <= 0x7fff_ffff,
        ;
    } else if c == 0 {
        assert(fill(h, m, 0, 0, t) == Fill::Done(Seq::<int>::empty()));
        assert(n >= 1);
        lemma_settle_zero(h, m, t, n);
        reveal_with_fuel(fill, 3);
        assert(!(t >= m * (h.len() - 0)));
        assert(t < m * n);
        assert(n * m > t) by (nonlinear_arith)
            requires
                t < m * n,
        ;
    } else {
        lemma_fill_short(h, m, c, 0, t);
        let fixed = fill(h, m, c, 0, t)->Done_0;
        lemma_fill_done(h, m, c, 0, t);
        assert(c == 1);
        let kept = fixed.take(0);
        assert(kept =~= Seq::<int>::empty());
        let share = trunc_div(t, n);
        assert(share < m);
        lemma_trunc_div_bounds(t, n);
        assert(n * m > t) by (nonlinear_arith)
            requires
                share < m,
                n >= 1,
                m >= 1,
                t >= 0 ==> t - n < share * n,
                t < 0 ==> share <= 0,
        ;
    }
}

proof fn lemma_fill_short(h: Seq<i32>, min: int, count: int, idx: int, remaining: int)
    requires
        0 <= idx <= count <= h.len() <= i32::MAX,
    ensures
        !(fill(h, min, count, idx, remaining) is Abort),
    decreases count - idx,
{
    if idx < count {
        if h[idx] < remaining {
            lemma_fill_short(h, min, count, idx + 1, remaining - h[idx]);
        } else {
            lemma_fill_short(h, min, count, idx + 1, 0);
        }
    }
}

proof fn lemma_fill_nonneg(h: Seq<i32>, min: int, count: int, idx: int, remaining: int)
    requires
        0 <= idx <= count <= h.len(),
        heights_valid(h),
        remaining >= 0,
        fill(h, min, count, idx, remaining) is Done,
    ensures
        forall|i: int|
            0 <= i < fill(h, min, count, idx, remaining)->Done_0.len() ==> fill(
                h,
                min,
                count,
                idx,
                remaining,
            )->Done_0[i] >= 0,
    decreases count - idx,
{
    if idx < count {
        if h[idx] < remaining {
            lemma_fill_nonneg(h, min, count, idx + 1, remaining - h[idx]);
        } else {
            lemma_fill_nonneg(h, min, count, idx + 1, 0);
        }
    }
}

proof fn lemma_settle_below_zero(h: Seq<i32>, min: int, total_height: int, count: int)
    requires
        0 <= count <= h.len() <= i32::MAX,
        heights_valid(h),
        min >= 0,
        total_height < 0,
    ensures
        settle(h, min, total_height, count) == 0,
    decreases count,
{
    if count > 0 {
        assert(min * (h.len() - 0) >= 0) by (nonlinear_arith)
            requires
                min >= 0,
                h.len() >= 0,
        ;
        assert(fill(h, min, count, 0, total_height) is Stop);
        lemma_settle_below_zero(h, min, total_height, count - 1);
    }
}

/// The sum of the first `k` of a sequence of numbers none of which is
/// negative is at most the sum of all.
pub proof fn lemma_total_prefix(s: Seq<int>, k: int)
    requires
        0 <= k <= s.len(),
        forall|i: int| 0 <= i < s.len() ==> s[i] >= 0,
    ensures
        0 <= total(s.take(k)) <= total(s),
        k < s.len() ==> total(s.take(k + 1)) == total(s.take(k)) + s[k],
    decreases s.len() - k,
{
    if k < s.len() {
        lemma_total_prefix(s, k + 1);
        assert(s.take(k + 1).drop_last() =~= s.take(k));
        lemma_total_nonneg(s.take(k));
    } else {
        assert(s.take(k) =~= s);
        lemma_total_nonneg(s);
    }
}

proof fn lemma_total_nonneg(s: Seq<int>)
    requires
        forall|i: int| 0 <= i < s.len() ==> s[i] >= 0,
    ensures
        total(s) >= 0,
    decreases s.len(),
{
    if s.len() > 0 {
        lemma_total_nonneg(s.drop_last());
    }
}

/// With a minimum height that is not negative no window gets a negative
/// height, and the heights never add up to more than the viewport has.
pub proof fn lemma_binpack_nonneg(h: Seq<i32>, min: i32, total_height: i32)
    requires
        heights_valid(h),
        min >= 0,
        binpack(h, min as int, total_height as int).is_some(),
    ensures
        ({
            let r = binpack(h, min as int, total_height as int).unwrap();
            &&& forall|i: int| 0 <= i < r.len() ==> r[i] >= 0
            &&& r.len() == 0 || total(r) <= total_height
        }),
{
    let m = min as int;
    let t = total_height as int;
    let n = h.len() as int;
    let c = settle(h, m, t, n);
    let r = binpack(h, m, t).unwrap();
    lemma_settle(h, m, t, n);
    lemma_fill_done(h, m, c, 0, t);
    let fixed = fill(h, m, c, 0, t)->Done_0;
    if t < 0 {
        if n <= i32::MAX {
            lemma_settle_below_zero(h, m, t, n);
        }
        assert(r.len() == 0);
    } else {
        lemma_fill_nonneg(h, m, c, 0, t);
        if n - c > 0 && c > 0 {
            let kept = fixed.take(c - 1);
            let rest = t - total(kept);
            let share = trunc_div(rest, n - c + 1);
            let tail = Seq::new((n - c + 1) as nat, |i: int| share);
            lemma_total_concat(kept, tail);
            lemma_total_constant((n - c + 1) as nat, share);
            lemma_trunc_div_bounds(rest, n - c + 1);
            assert(fixed =~= kept.push(fixed[c - 1]));
            lemma_total_push(kept, fixed[c - 1]);
            assert(rest == fixed[c - 1]);
            assert((n - c + 1) * share == share * (n - c + 1)) by (nonlinear_arith);
        } else if c > 0 {
        }
    }
}

} // verus!
