use vstd::prelude::*;

use crate::routing::{routable, Point, Rect, COORD_LIMIT};
use crate::task::{Dependency, DependencyKind, Task};
use crate::timeline::{clamp_day, clamp_shift, drag_days, round_div, shift_within_days, TimelineViewport};

verus! {

/// Share of the row height, in percent, that a vertical movement must exceed
/// before a drag becomes a reorder.
pub const REORDER_THRESHOLD_PERCENT: i64 = 45;

/// The part of a task bar that a drag started on.
#[derive(Debug, Clone, Copy, PartialEq, Eq, Structural)]
pub enum DragHandle {
    Move,
    ResizeLeft,
    ResizeRight,
    Milestone,
}

/// Where a gesture stands: pressed but not yet moved, or committed to one
/// kind of edit for the rest of the gesture.
#[derive(Debug, Clone, Copy, PartialEq, Eq, Structural)]
pub enum DragMode {
    Armed,
    Horizontal,
    Vertical,
}

/// What the gesture saw when it started.
#[derive(Debug, Clone, Copy, PartialEq, Eq, Structural)]
pub struct DragSnapshot {
    pub start: i32,
    pub end: i32,
    pub pointer_x: i64,
    pub pointer_y: i64,
}

/// One gesture on one handle of one task.
#[derive(Debug, Clone, Copy, PartialEq, Eq, Structural)]
pub struct DragState {
    pub task_id: u128,
    pub handle: DragHandle,
    /// The row that the task sat on when the gesture started.
    pub origin_row: usize,
    pub snapshot: DragSnapshot,
    pub mode: DragMode,
}

/// The vertical layout of the chart's rows.
#[derive(Debug, Clone, Copy, PartialEq, Eq, Structural)]
pub struct RowLayout {
    /// y of the top of the first row.
    pub content_top: i64,
    pub row_height: i64,
    pub row_gap: i64,
    pub row_count: usize,
}

/// The edit that one frame of a gesture asks for.
#[derive(Debug, Clone, Copy, PartialEq, Eq, Structural)]
pub enum DragEffect {
    Unchanged,
    SetDates { start: i32, end: i32 },
    Reorder { target_row: usize },
}

pub open spec fn abs_int(x: int) -> int {
    if x < 0 { -x } else { x }
}

impl RowLayout {
    pub open spec fn wf(&self) -> bool {
        &&& -COORD_LIMIT <= self.content_top <= COORD_LIMIT
        &&& 0 < self.row_height <= COORD_LIMIT
        &&& 0 <= self.row_gap <= COORD_LIMIT
    }

    pub open spec fn reorder_threshold_spec(&self) -> int {
        self.row_height * REORDER_THRESHOLD_PERCENT / 100
    }

    /// The row under height `y`: `floor((y - top) / (height + gap))`, kept
    /// within the rows; none when there are no rows.
    pub open spec fn row_at_spec(&self, y: int) -> Option<int> {
        if self.row_count == 0 {
            None
        } else {
            let raw = (y - self.content_top) / (self.row_height + self.row_gap);
            Some(
                if raw < 0 {
                    0
                } else if raw > self.row_count - 1 {
                    self.row_count - 1
                } else {
                    raw
                },
            )
        }
    }

    /// How far a gesture must move vertically before it counts as a reorder.
    pub fn reorder_threshold(&self) -> (r: i64)
        requires
            self.wf(),
        ensures
            r == self.reorder_threshold_spec(),
    {
        self.row_height * REORDER_THRESHOLD_PERCENT / 100
    }

    /// The row index under height `y`, clamped to the existing rows.
    pub fn row_index_from_pointer_y(&self, y: i64) -> (r: Option<usize>)
        requires
            self.wf(),
            -COORD_LIMIT <= y <= COORD_LIMIT,
        ensures
            r matches Some(i) ==> self.row_at_spec(y as int) == Some(i as int),
            r is None ==> self.row_at_spec(y as int) is None,
    {
        if self.row_count == 0 {
            return None;
        }
        let span = self.row_height + self.row_gap;
        if y < self.content_top {
            proof {
                let n = y - self.content_top;
                let q = n / (span as int);
                let m = n % (span as int);
                vstd::arithmetic::div_mod::lemma_fundamental_div_mod(n, span as int);
                assert(q < 0) by (nonlinear_arith)
                    requires
                        n == (span as int) * q + m,
                        0 <= m < span,
                        n < 0,
                ;
            }
            return Some(0);
        }
        let raw = (y - self.content_top) / span;
        if raw as u64 as u128 > (self.row_count - 1) as u128 {
            Some(self.row_count - 1)
        } else {
            Some(raw as usize)
        }
    }
}

/// A gesture is a reorder only when it moves further vertically than both
/// the threshold and its horizontal movement.
pub open spec fn classify_spec(dx: int, dy: int, threshold: int) -> DragMode {
    if abs_int(dy) > threshold && abs_int(dy) > abs_int(dx) {
        DragMode::Vertical
    } else {
        DragMode::Horizontal
    }
}

/// Only whole bars and milestones can be dragged to another row.
pub open spec fn can_reorder(handle: DragHandle) -> bool {
    handle == DragHandle::Move || handle == DragHandle::Milestone
}

/// The dates that a horizontal movement of `delta` days gives: a move shifts
/// both ends, a resize moves one end and stops at the other, a milestone
/// moves as one date. Dates stay valid day numbers.
pub open spec fn horizontal_dates(handle: DragHandle, snap: DragSnapshot, delta: int) -> (int, int) {
    match handle {
        DragHandle::Move => {
            let s = clamp_shift(snap.start as int, snap.end as int, delta);
            (snap.start + s, snap.end + s)
        },
        DragHandle::ResizeLeft => {
            let ns = clamp_day(snap.start + delta);
            (if ns > snap.end { snap.end as int } else { ns }, snap.end as int)
        },
        DragHandle::ResizeRight => {
            let ne = clamp_day(snap.end + delta);
            (snap.start as int, if ne < snap.start { snap.start as int } else { ne })
        },
        DragHandle::Milestone => {
            let d = clamp_day(snap.start + delta);
            (d, d)
        },
    }
}

/// The classification of a gesture that has moved by (`dx`, `dy`).
pub fn classify(dx: i64, dy: i64, threshold: i64) -> (r: DragMode)
    requires
        -2 * COORD_LIMIT <= dx <= 2 * COORD_LIMIT,
        -2 * COORD_LIMIT <= dy <= 2 * COORD_LIMIT,
    ensures
        r == classify_spec(dx as int, dy as int, threshold as int),
{
    let ax = if dx < 0 { -dx } else { dx };
    let ay = if dy < 0 { -dy } else { dy };
    if ay > threshold && ay > ax {
        DragMode::Vertical
    } else {
        DragMode::Horizontal
    }
}

fn clamp_to_day(d: i128) -> (r: i32)
    ensures
        r == clamp_day(d as int),
{
    if d < i32::MIN as i128 {
        i32::MIN
    } else if d > i32::MAX as i128 {
        i32::MAX
    } else {
        d as i32
    }
}

/// New (start, end) of the dragged task after a horizontal movement of
/// `delta` days from the snapshot.
pub fn apply_horizontal(handle: DragHandle, snap: DragSnapshot, delta: i64) -> (r: (i32, i32))
    requires
        snap.start <= snap.end,
    ensures
        (r.0 as int, r.1 as int) == horizontal_dates(handle, snap, delta as int),
        r.0 <= r.1,
        handle == DragHandle::Milestone ==> r.0 == r.1,
{
    match handle {
        DragHandle::Move => {
            let s = shift_within_days(snap.start, snap.end, delta);
            ((snap.start as i64 + s) as i32, (snap.end as i64 + s) as i32)
        },
        DragHandle::ResizeLeft => {
            let ns = clamp_to_day(snap.start as i128 + delta as i128);
            (if ns > snap.end { snap.end } else { ns }, snap.end)
        },
        DragHandle::ResizeRight => {
            let ne = clamp_to_day(snap.end as i128 + delta as i128);
            (snap.start, if ne < snap.start { snap.start } else { ne })
        },
        DragHandle::Milestone => {
            let d = clamp_to_day(snap.start as i128 + delta as i128);
            (d, d)
        },
    }
}

impl DragState {
    pub open spec fn wf(&self) -> bool {
        &&& self.snapshot.start <= self.snapshot.end
        &&& -COORD_LIMIT <= self.snapshot.pointer_x <= COORD_LIMIT
        &&& -COORD_LIMIT <= self.snapshot.pointer_y <= COORD_LIMIT
    }

    /// The effect of a frame with the pointer at `pointer`, once the gesture
    /// has been classified into `mode`.
    pub open spec fn effect_spec(
        &self,
        mode: DragMode,
        pointer: Point,
        pixels_per_day: int,
        layout: RowLayout,
    ) -> DragEffect {
        if mode == DragMode::Vertical {
            match layout.row_at_spec(pointer.y as int) {
                Some(t) => if t != self.origin_row {
                    DragEffect::Reorder { target_row: t as usize }
                } else {
                    DragEffect::Unchanged
                },
                None => DragEffect::Unchanged,
            }
        } else {
            let d = round_div(pointer.x - self.snapshot.pointer_x, pixels_per_day);
            let (s, e) = horizontal_dates(self.handle, self.snapshot, d);
            DragEffect::SetDates { start: s as i32, end: e as i32 }
        }
    }

    /// The mode that a frame with the pointer at `pointer` leaves the gesture
    /// in: decided on the first frame after the press, kept afterwards.
    pub open spec fn next_mode_spec(&self, pointer: Point, layout: RowLayout) -> DragMode {
        if self.mode != DragMode::Armed {
            self.mode
        } else if can_reorder(self.handle) {
            classify_spec(
                pointer.x - self.snapshot.pointer_x,
                pointer.y - self.snapshot.pointer_y,
                layout.reorder_threshold_spec(),
            )
        } else {
            DragMode::Horizontal
        }
    }

    /// A press on a handle: records the task's dates and the pointer, and
    /// changes nothing yet.
    pub fn press(
        task_id: u128,
        handle: DragHandle,
        origin_row: usize,
        start: i32,
        end: i32,
        pointer: Point,
    ) -> (r: DragState)
        requires
            start <= end,
            routable(pointer),
        ensures
            r.wf(),
            r == (DragState {
                task_id,
                handle,
                origin_row,
                snapshot: DragSnapshot { start, end, pointer_x: pointer.x, pointer_y: pointer.y },
                mode: DragMode::Armed,
            }),
    {
        DragState {
            task_id,
            handle,
            origin_row,
            snapshot: DragSnapshot { start, end, pointer_x: pointer.x, pointer_y: pointer.y },
            mode: DragMode::Armed,
        }
    }

    /// One frame of the gesture with the pointer at `pointer`. The first
    /// frame after the press classifies the gesture; later frames keep that
    /// classification whatever the pointer does.
    pub fn drag_to(&mut self, pointer: Point, pixels_per_day: i64, layout: RowLayout) -> (r: DragEffect)
        requires
            old(self).wf(),
            routable(pointer),
            pixels_per_day > 0,
            layout.wf(),
        ensures
            final(self).wf(),
            final(self).mode == old(self).next_mode_spec(pointer, layout),
            old(self).mode != DragMode::Armed ==> final(self).mode == old(self).mode,
            final(self).mode != DragMode::Armed,
            final(self).task_id == old(self).task_id,
            final(self).handle == old(self).handle,
            final(self).origin_row == old(self).origin_row,
            final(self).snapshot == old(self).snapshot,
            r == old(self).effect_spec(final(self).mode, pointer, pixels_per_day as int, layout),
    {
        let dx = pointer.x - self.snapshot.pointer_x;
        let dy = pointer.y - self.snapshot.pointer_y;
        if self.mode == DragMode::Armed {
            if self.handle == DragHandle::Move || self.handle == DragHandle::Milestone {
                let threshold = layout.reorder_threshold();
                self.mode = classify(dx, dy, threshold);
            } else {
                self.mode = DragMode::Horizontal;
            }
        }
        if self.mode == DragMode::Vertical {
            match layout.row_index_from_pointer_y(pointer.y) {
                Some(t) => if t != self.origin_row {
                    DragEffect::Reorder { target_row: t }
                } else {
                    DragEffect::Unchanged
                },
                None => DragEffect::Unchanged,
            }
        } else {
            let d = drag_days(dx, pixels_per_day);
            let (s, e) = apply_horizontal(self.handle, self.snapshot, d);
            DragEffect::SetDates { start: s, end: e }
        }
    }
}

/// `s` with the item at `from` taken out and put back at `to`; every other
/// item keeps its relative order.
pub open spec fn moved<T>(s: Seq<T>, from: int, to: int) -> Seq<T> {
    s.remove(from).insert(to, s[from])
}

/// Moves the item at `from` to position `to`, shifting the items between
/// them by one place; out-of-range or equal positions change nothing.
pub fn move_task_by_swapping<T>(items: &mut Vec<T>, from: usize, to: usize)
    ensures
        (from == to || from >= old(items)@.len() || to >= old(items)@.len()) ==> final(items)@ == old(items)@,
        !(from == to || from >= old(items)@.len() || to >= old(items)@.len()) ==> final(items)@ == moved(
            old(items)@,
            from as int,
            to as int,
        ),
{
    if from == to || from >= items.len() || to >= items.len() {
        return;
    }
    let item = items.remove(from);
    items.insert(to, item);
}

/// A link being drawn from one task's bar with the link modifier held.
#[derive(Debug, Clone, Copy, PartialEq, Eq, Structural)]
pub struct LinkDrag {
    pub from_task: u128,
    /// Where the preview line starts: the middle of the bar's left edge.
    pub from_point: Point,
}

/// A task's bar as laid out on screen.
#[derive(Debug, Clone, Copy, PartialEq, Eq, Structural)]
pub struct TaskBar {
    pub task_id: u128,
    pub rect: Rect,
}

/// Narrowest bar drawn, in pixels.
pub const BAR_MIN_WIDTH: i64 = 6;

/// Smallest half-size of a milestone's diamond, in pixels.
pub const MILESTONE_MIN_HALF: i64 = 6;

/// Where the bar of `task` lies on a row whose top is at `y`: a plain task
/// spans its dates (at least `BAR_MIN_WIDTH` wide) inset from the row's
/// edges; a milestone is a square around its date at the row's middle.
pub open spec fn bar_rect_spec(v: TimelineViewport, task: Task, origin_x: int, y: int, row_height: int, inset: int) -> Rect {
    if task.is_milestone {
        let x = origin_x + v.date_to_x_spec(task.start as int);
        let half = if row_height / 2 - 3 > MILESTONE_MIN_HALF { row_height / 2 - 3 } else { MILESTONE_MIN_HALF as int };
        let cy = y + row_height / 2;
        Rect { min_x: (x - half) as i64, min_y: (cy - half) as i64, max_x: (x + half) as i64, max_y: (cy + half) as i64 }
    } else {
        let x0 = origin_x + v.date_to_x_spec(task.start as int);
        let x1 = origin_x + v.date_to_x_spec(task.end as int);
        let w = if x1 - x0 > BAR_MIN_WIDTH { x1 - x0 } else { BAR_MIN_WIDTH as int };
        Rect { min_x: x0 as i64, min_y: (y + inset) as i64, max_x: (x0 + w) as i64, max_y: (y + row_height - inset) as i64 }
    }
}

/// The rectangle of a task's bar, as the chart lays it out.
pub fn task_bar_rect(v: &TimelineViewport, task: &Task, origin_x: i64, y: i64, row_height: i64, inset: i64) -> (r: Rect)
    requires
        v.wf(),
        -COORD_LIMIT <= origin_x <= COORD_LIMIT,
        -COORD_LIMIT <= y <= COORD_LIMIT,
        0 <= row_height <= COORD_LIMIT,
        0 <= inset <= COORD_LIMIT,
    ensures
        r == bar_rect_spec(*v, *task, origin_x as int, y as int, row_height as int, inset as int),
{
    let x0 = origin_x + v.date_to_x(task.start);
    if task.is_milestone {
        let half = if row_height / 2 - 3 > MILESTONE_MIN_HALF { row_height / 2 - 3 } else { MILESTONE_MIN_HALF };
        let cy = y + row_height / 2;
        Rect { min_x: x0 - half, min_y: cy - half, max_x: x0 + half, max_y: cy + half }
    } else {
        let x1 = origin_x + v.date_to_x(task.end);
        let w = if x1 - x0 > BAR_MIN_WIDTH { x1 - x0 } else { BAR_MIN_WIDTH };
        Rect { min_x: x0, min_y: y + inset, max_x: x0 + w, max_y: y + row_height - inset }
    }
}

/// Index of the first bar under `p` that does not belong to `skip`.
pub open spec fn first_hit(bars: Seq<TaskBar>, p: Point, skip: Option<u128>) -> Option<int> {
    if exists|i: int| 0 <= i < bars.len() && #[trigger] hit(bars[i], p, skip) {
        Some(choose|i: int| 0 <= i < bars.len() && hit(bars[i], p, skip) && forall|j: int| 0 <= j < i ==> !#[trigger] hit(bars[j], p, skip))
    } else {
        None
    }
}

pub open spec fn hit(bar: TaskBar, p: Point, skip: Option<u128>) -> bool {
    bar.rect.contains_spec(p) && skip != Some(bar.task_id)
}

fn find_bar(bars: &Vec<TaskBar>, p: Point, skip: Option<u128>) -> (r: Option<usize>)
    ensures
        r is None ==> forall|i: int| 0 <= i < bars@.len() ==> !#[trigger] hit(bars@[i], p, skip),
        r matches Some(i) ==> i < bars@.len() && hit(bars@[i as int], p, skip) && forall|j: int|
            0 <= j < i ==> !#[trigger] hit(bars@[j], p, skip),
{
    let mut i: usize = 0;
    while i < bars.len()
        invariant
            i <= bars@.len(),
            forall|j: int| 0 <= j < i ==> !#[trigger] hit(bars@[j], p, skip),
        decreases bars@.len() - i,
    {
        let b = bars[i];
        let skipped = match skip {
            Some(id) => id == b.task_id,
            None => false,
        };
        if b.rect.contains(p) && !skipped {
            return Some(i);
        }
        i += 1;
    }
    None
}

proof fn lemma_first_hit(bars: Seq<TaskBar>, p: Point, skip: Option<u128>, i: int)
    requires
        0 <= i < bars.len(),
        hit(bars[i], p, skip),
        forall|j: int| 0 <= j < i ==> !#[trigger] hit(bars[j], p, skip),
    ensures
        first_hit(bars, p, skip) == Some(i),
{
    let k = choose|k: int| 0 <= k < bars.len() && hit(bars[k], p, skip) && forall|j: int| 0 <= j < k ==> !#[trigger] hit(bars[j], p, skip);
    assert(0 <= k < bars.len() && hit(bars[k], p, skip));
    if k < i {
        assert(!hit(bars[k], p, skip));
    }
    if k > i {
        assert(!hit(bars[i], p, skip));
    }
}

impl LinkDrag {
    /// A press with the link modifier held: starts a link from the first bar
    /// under the pointer, or nothing when no bar is there.
    pub fn begin(bars: &Vec<TaskBar>, pointer: Point) -> (r: Option<LinkDrag>)
        requires
            forall|i: int| 0 <= i < bars@.len() ==> (#[trigger] bars@[i]).rect.wf(),
        ensures
            first_hit(bars@, pointer, None) is None ==> r is None,
            first_hit(bars@, pointer, None) matches Some(i) ==> r == Some(
                LinkDrag {
                    from_task: bars@[i].task_id,
                    from_point: Point { x: bars@[i].rect.min_x, y: bars@[i].rect.center_y_spec() as i64 },
                },
            ),
    {
        match find_bar(bars, pointer, None) {
            None => None,
            Some(i) => {
                proof {
                    lemma_first_hit(bars@, pointer, None, i as int);
                }
                let b = bars[i];
                Some(LinkDrag { from_task: b.task_id, from_point: Point { x: b.rect.min_x, y: b.rect.center_y() } })
            },
        }
    }

    /// The release: a finish-to-start link from the origin task to the first
    /// other bar under the pointer, unless that ordered pair is already
    /// linked; otherwise nothing.
    pub fn release(&self, bars: &Vec<TaskBar>, pointer: Point, deps: &Vec<Dependency>) -> (r: Option<Dependency>)
        ensures
            first_hit(bars@, pointer, Some(self.from_task)) is None ==> r is None,
            first_hit(bars@, pointer, Some(self.from_task)) matches Some(i) ==> r == if linked(
                deps@,
                self.from_task,
                bars@[i].task_id,
            ) {
                None
            } else {
                Some(
                    Dependency {
                        from_task: self.from_task,
                        to_task: bars@[i].task_id,
                        kind: DependencyKind::FinishToStart,
                    },
                )
            },
            r matches Some(d) ==> d.from_task != d.to_task,
    {
        match find_bar(bars, pointer, Some(self.from_task)) {
            None => None,
            Some(i) => {
                proof {
                    lemma_first_hit(bars@, pointer, Some(self.from_task), i as int);
                }
                let target = bars[i].task_id;
                if has_link(deps, self.from_task, target) {
                    None
                } else {
                    Some(Dependency { from_task: self.from_task, to_task: target, kind: DependencyKind::FinishToStart })
                }
            },
        }
    }
}

/// What one frame of chart interaction asks the host to do.
#[derive(Debug, Clone, Copy, PartialEq, Eq)]
pub struct ChartInteraction {
    /// Some task's dates or position changed.
    pub changed: bool,
    /// A link drawn with the link modifier held.
    pub new_dependency: Option<Dependency>,
    /// A link to remove, as (from, to).
    pub remove_dependency: Option<(u128, u128)>,
    /// A summary task whose children should be shown or hidden.
    pub toggle_collapse: Option<u128>,
    /// A task to add a child under.
    pub add_subtask: Option<u128>,
    /// A task to delete.
    pub delete_task: Option<u128>,
}

impl Default for ChartInteraction {
    fn default() -> (r: ChartInteraction)
        ensures
            !r.changed,
            r.new_dependency is None,
            r.remove_dependency is None,
            r.toggle_collapse is None,
            r.add_subtask is None,
            r.delete_task is None,
    {
        ChartInteraction {
            changed: false,
            new_dependency: None,
            remove_dependency: None,
            toggle_collapse: None,
            add_subtask: None,
            delete_task: None,
        }
    }
}

/// Whether some dependency runs from `from` to `to`.
pub open spec fn linked(deps: Seq<Dependency>, from: u128, to: u128) -> bool {
    exists|i: int| 0 <= i < deps.len() && #[trigger] deps[i].from_task == from && deps[i].to_task == to
}

/// Whether some dependency runs from `from` to `to`.
pub fn has_link(deps: &Vec<Dependency>, from: u128, to: u128) -> (r: bool)
    ensures
        r == linked(deps@, from, to),
{
    let mut i: usize = 0;
    while i < deps.len()
        invariant
            i <= deps@.len(),
            forall|j: int| 0 <= j < i ==> !(#[trigger] deps@[j].from_task == from && deps@[j].to_task == to),
        decreases deps@.len() - i,
    {
        if deps[i].from_task == from && deps[i].to_task == to {
            return true;
        }
        i += 1;
    }
    false
}

} // verus!
