use vstd::prelude::*;

use crate::task::Task;

verus! {

/// Pixels per day of a new viewport.
pub const DEFAULT_PIXELS_PER_DAY: i64 = 18;

/// Smallest zoom level.
pub const MIN_PIXELS_PER_DAY: i64 = 2;

/// Largest zoom level.
pub const MAX_PIXELS_PER_DAY: i64 = 80;

/// What granularity the timeline header shows.
#[derive(Debug, Clone, Copy, PartialEq, Eq, Structural)]
pub enum TimelineScale {
    Days,
    Weeks,
    Months,
}

/// Nearest integer to `x / d` for `d > 0`, halves rounded away from zero.
pub open spec fn round_div(x: int, d: int) -> int {
    if x >= 0 {
        (2 * x + d) / (2 * d)
    } else {
        -((-2 * x + d) / (2 * d))
    }
}

/// Clamps a day number into the range of `i32`.
pub open spec fn clamp_day(d: int) -> int {
    if d < i32::MIN {
        i32::MIN as int
    } else if d > i32::MAX {
        i32::MAX as int
    } else {
        d
    }
}

/// Shifts `delta` towards zero just enough that `lo + delta` and
/// `hi + delta` both stay within `i32`.
pub open spec fn clamp_shift(lo: int, hi: int, delta: int) -> int {
    if delta < i32::MIN - lo {
        i32::MIN - lo
    } else if delta > i32::MAX - hi {
        i32::MAX - hi
    } else {
        delta
    }
}

proof fn lemma_round_div_close(x: int, d: int)
    requires
        d > 0,
    ensures
        -d <= 2 * (x - round_div(x, d) * d) <= d,
        x >= 0 ==> -d <= 2 * (x - round_div(x, d) * d) && 2 * (x - round_div(x, d) * d) < d,
        x < 0 ==> -d < 2 * (x - round_div(x, d) * d) && 2 * (x - round_div(x, d) * d) <= d,
        x >= 0 ==> 0 <= round_div(x, d) <= x,
        x < 0 ==> x <= round_div(x, d) <= 0,
{
    if x >= 0 {
        let q = (2 * x + d) / (2 * d);
        let r = (2 * x + d) % (2 * d);
        assert(2 * x + d == q * (2 * d) + r && 0 <= r < 2 * d) by {
            vstd::arithmetic::div_mod::lemma_fundamental_div_mod(2 * x + d, 2 * d);
        }
        assert(2 * (x - q * d) == r - d) by (nonlinear_arith)
            requires
                2 * x + d == q * (2 * d) + r,
        ;
        assert(0 <= q <= x) by (nonlinear_arith)
            requires
                2 * (x - q * d) == r - d,
                0 <= r < 2 * d,
                d > 0,
                x >= 0,
        ;
    } else {
        let q = (-2 * x + d) / (2 * d);
        let r = (-2 * x + d) % (2 * d);
        assert(-2 * x + d == q * (2 * d) + r && 0 <= r < 2 * d) by {
            vstd::arithmetic::div_mod::lemma_fundamental_div_mod(-2 * x + d, 2 * d);
        }
        assert(2 * (x - (-q) * d) == d - r) by (nonlinear_arith)
            requires
                -2 * x + d == q * (2 * d) + r,
        ;
        assert(0 <= q <= -x) by (nonlinear_arith)
            requires
                2 * (x - (-q) * d) == d - r,
                0 <= r < 2 * d,
                d > 0,
                x < 0,
        ;
    }
}

/// Whole days that a horizontal pointer movement of `delta_x` pixels stands
/// for: the nearest day, halves away from zero.
pub fn drag_days(delta_x: i64, pixels_per_day: i64) -> (r: i64)
    requires
        pixels_per_day > 0,
    ensures
        r == round_div(delta_x as int, pixels_per_day as int),
        -pixels_per_day <= 2 * (delta_x - r * pixels_per_day) <= pixels_per_day,
{
    let x = delta_x as i128;
    let d = pixels_per_day as i128;
    proof {
        lemma_round_div_close(delta_x as int, pixels_per_day as int);
    }
    let r: i128 = if x >= 0 {
        (2 * x + d) / (2 * d)
    } else {
        -((-2 * x + d) / (2 * d))
    };
    r as i64
}

/// The visible date range of the chart and its zoom level.
#[derive(Debug, Clone, Copy, PartialEq, Eq, Structural)]
pub struct TimelineViewport {
    /// The leftmost visible day.
    pub start: i32,
    /// The rightmost visible day.
    pub end: i32,
    pub scale: TimelineScale,
    pub pixels_per_day: i64,
}

impl TimelineViewport {
    pub open spec fn wf(&self) -> bool {
        &&& self.start <= self.end
        &&& MIN_PIXELS_PER_DAY <= self.pixels_per_day <= MAX_PIXELS_PER_DAY
    }

    pub open spec fn date_to_x_spec(&self, date: int) -> int {
        (date - self.start) * self.pixels_per_day
    }

    /// A viewport over `start..end` (swapped if given in reverse), by weeks,
    /// at the default zoom.
    pub fn new(start: i32, end: i32) -> (r: TimelineViewport)
        ensures
            r.wf(),
            r.start == if start <= end { start } else { end },
            r.end == if start <= end { end } else { start },
            r.scale == TimelineScale::Weeks,
            r.pixels_per_day == DEFAULT_PIXELS_PER_DAY,
    {
        TimelineViewport {
            start: if start <= end { start } else { end },
            end: if start <= end { end } else { start },
            scale: TimelineScale::Weeks,
            pixels_per_day: DEFAULT_PIXELS_PER_DAY,
        }
    }

    /// The x offset of `date` from the viewport's left edge.
    pub fn date_to_x(&self, date: i32) -> (r: i64)
        requires
            self.wf(),
        ensures
            r == self.date_to_x_spec(date as int),
            -0x1_0000_0000 * 80 <= r <= 0x1_0000_0000 * 80,
    {
        let days = date as i64 - self.start as i64;
        proof {
            assert(-0x1_0000_0000 * 80 <= days * self.pixels_per_day <= 0x1_0000_0000 * 80) by (nonlinear_arith)
                requires
                    -0x1_0000_0000 <= days <= 0x1_0000_0000,
                    2 <= self.pixels_per_day <= 80,
            ;
        }
        days * self.pixels_per_day
    }

    /// The day at x offset `x`, rounded to the nearest day and kept within
    /// the range of day numbers.
    pub fn x_to_date(&self, x: i64) -> (r: i32)
        requires
            self.wf(),
        ensures
            r == clamp_day(self.start + round_div(x as int, self.pixels_per_day as int)),
    {
        let days = drag_days(x, self.pixels_per_day);
        let d = self.start as i128 + days as i128;
        if d < i32::MIN as i128 {
            i32::MIN
        } else if d > i32::MAX as i128 {
            i32::MAX
        } else {
            d as i32
        }
    }

    /// Width in pixels of the visible range.
    pub fn total_width(&self) -> (r: i64)
        requires
            self.wf(),
        ensures
            r == self.date_to_x_spec(self.end as int),
    {
        self.date_to_x(self.end)
    }

    /// Fits the visible range to the tasks, with a week before the earliest
    /// start and a month after the latest end; unchanged without tasks.
    pub fn fit_to_tasks(&mut self, tasks: &Vec<Task>)
        requires
            old(self).wf(),
            forall|i: int| 0 <= i < tasks@.len() ==> (#[trigger] tasks@[i]).start <= tasks@[i].end,
        ensures
            final(self).wf(),
            tasks@.len() == 0 ==> *final(self) == *old(self),
            tasks@.len() > 0 ==> final(self).start == clamp_day(earliest_start(tasks@) - FIT_MARGIN_BEFORE)
                && final(self).end == clamp_day(latest_end(tasks@) + FIT_MARGIN_AFTER),
            final(self).scale == old(self).scale,
            final(self).pixels_per_day == old(self).pixels_per_day,
    {
        if tasks.len() == 0 {
            return;
        }
        let mut lo: i32 = tasks[0].start;
        let mut hi: i32 = tasks[0].end;
        let mut i: usize = 1;
        proof {
            assert(tasks@.take(1).drop_last() =~= Seq::<Task>::empty());
        }
        while i < tasks.len()
            invariant
                1 <= i <= tasks@.len(),
                lo == earliest_start(tasks@.take(i as int)),
                hi == latest_end(tasks@.take(i as int)),
                lo <= hi,
                forall|k: int| 0 <= k < tasks@.len() ==> (#[trigger] tasks@[k]).start <= tasks@[k].end,
            decreases tasks@.len() - i,
        {
            proof {
                assert(tasks@.take(i + 1).drop_last() =~= tasks@.take(i as int));
                assert(tasks@.take(i + 1).last() == tasks@[i as int]);
            }
            if tasks[i].start < lo {
                lo = tasks[i].start;
            }
            if tasks[i].end > hi {
                hi = tasks[i].end;
            }
            i += 1;
        }
        proof {
            assert(tasks@.take(tasks@.len() as int) =~= tasks@);
        }
        let s = lo as i64 - FIT_MARGIN_BEFORE as i64;
        let e = hi as i64 + FIT_MARGIN_AFTER as i64;
        self.start = if s < i32::MIN as i64 { i32::MIN } else { s as i32 };
        self.end = if e > i32::MAX as i64 { i32::MAX } else { e as i32 };
    }

    /// Zooms in by about a fifth, by at least one pixel per day, up to the maximum.
    pub fn zoom_in(&mut self)
        requires
            old(self).wf(),
        ensures
            final(self).wf(),
            final(self).pixels_per_day == min_int(
                MAX_PIXELS_PER_DAY as int,
                max_int(old(self).pixels_per_day + 1, old(self).pixels_per_day * 6 / 5),
            ),
            final(self).start == old(self).start,
            final(self).end == old(self).end,
            final(self).scale == old(self).scale,
    {
        let p = self.pixels_per_day;
        let grown = if p * 6 / 5 > p + 1 { p * 6 / 5 } else { p + 1 };
        self.pixels_per_day = if grown > MAX_PIXELS_PER_DAY { MAX_PIXELS_PER_DAY } else { grown };
    }

    /// Zooms out by about a sixth, by at least one pixel per day, down to the minimum.
    pub fn zoom_out(&mut self)
        requires
            old(self).wf(),
        ensures
            final(self).wf(),
            final(self).pixels_per_day == max_int(
                MIN_PIXELS_PER_DAY as int,
                min_int(old(self).pixels_per_day - 1, old(self).pixels_per_day * 5 / 6),
            ),
            final(self).start == old(self).start,
            final(self).end == old(self).end,
            final(self).scale == old(self).scale,
    {
        let p = self.pixels_per_day;
        let shrunk = if p * 5 / 6 < p - 1 { p * 5 / 6 } else { p - 1 };
        self.pixels_per_day = if shrunk < MIN_PIXELS_PER_DAY { MIN_PIXELS_PER_DAY } else { shrunk };
    }

    /// Moves the visible range by `days`; the shift is limited so that both
    /// ends stay valid day numbers.
    pub fn scroll_days(&mut self, days: i64)
        requires
            old(self).wf(),
        ensures
            final(self).wf(),
            final(self).start == old(self).start + clamp_shift(old(self).start as int, old(self).end as int, days as int),
            final(self).end == old(self).end + clamp_shift(old(self).start as int, old(self).end as int, days as int),
            final(self).pixels_per_day == old(self).pixels_per_day,
            final(self).scale == old(self).scale,
    {
        let shift = shift_within_days(self.start, self.end, days);
        self.start = (self.start as i64 + shift) as i32;
        self.end = (self.end as i64 + shift) as i32;
    }
}

/// Days of margin left before the earliest task when fitting the view.
pub const FIT_MARGIN_BEFORE: i32 = 7;

/// Days of margin left after the latest task when fitting the view.
pub const FIT_MARGIN_AFTER: i32 = 30;

/// The earliest start among `ts`.
pub open spec fn earliest_start(ts: Seq<Task>) -> int
    decreases ts.len(),
{
    if ts.len() <= 1 {
        if ts.len() == 0 { 0 } else { ts[0].start as int }
    } else {
        min_int(earliest_start(ts.drop_last()), ts.last().start as int)
    }
}

/// The latest end among `ts`.
pub open spec fn latest_end(ts: Seq<Task>) -> int
    decreases ts.len(),
{
    if ts.len() <= 1 {
        if ts.len() == 0 { 0 } else { ts[0].end as int }
    } else {
        max_int(latest_end(ts.drop_last()), ts.last().end as int)
    }
}

pub open spec fn min_int(a: int, b: int) -> int {
    if a <= b { a } else { b }
}

pub open spec fn max_int(a: int, b: int) -> int {
    if a >= b { a } else { b }
}

/// The largest part of `delta`, towards zero, by which both `lo` and `hi`
/// can move while staying valid day numbers.
pub fn shift_within_days(lo: i32, hi: i32, delta: i64) -> (r: i64)
    requires
        lo <= hi,
    ensures
        r == clamp_shift(lo as int, hi as int, delta as int),
        i32::MIN <= lo + r <= i32::MAX,
        i32::MIN <= hi + r <= i32::MAX,
{
    let low = i32::MIN as i64 - lo as i64;
    let high = i32::MAX as i64 - hi as i64;
    if delta < low {
        low
    } else if delta > high {
        high
    } else {
        delta
    }
}

} // verus!
