use vstd::prelude::*;

verus! {

/// Progress is kept in thousandths: `0` is not started, `PROGRESS_FULL` is complete.
pub const PROGRESS_FULL: u32 = 1000;

/// How two linked tasks constrain each other's dates.
#[derive(Debug, Clone, Copy, PartialEq, Eq, Structural)]
pub enum DependencyKind {
    FinishToStart,
    StartToStart,
    FinishToFinish,
    StartToFinish,
}

/// A side of a task bar.
#[derive(Debug, Clone, Copy, PartialEq, Eq, Structural)]
pub enum Side {
    Left,
    Right,
}

pub open spec fn exit_side_spec(kind: DependencyKind) -> Side {
    match kind {
        DependencyKind::FinishToStart | DependencyKind::FinishToFinish => Side::Right,
        DependencyKind::StartToStart | DependencyKind::StartToFinish => Side::Left,
    }
}

pub open spec fn enter_side_spec(kind: DependencyKind) -> Side {
    match kind {
        DependencyKind::FinishToStart | DependencyKind::StartToStart => Side::Left,
        DependencyKind::FinishToFinish | DependencyKind::StartToFinish => Side::Right,
    }
}

pub open spec fn short_label_spec(kind: DependencyKind) -> Seq<char> {
    match kind {
        DependencyKind::FinishToStart => "FS"@,
        DependencyKind::StartToStart => "SS"@,
        DependencyKind::FinishToFinish => "FF"@,
        DependencyKind::StartToFinish => "SF"@,
    }
}

impl DependencyKind {
    /// The side of the predecessor's bar that a link leaves from.
    pub fn exit_side(&self) -> (r: Side)
        ensures
            r == exit_side_spec(*self),
    {
        match self {
            DependencyKind::FinishToStart | DependencyKind::FinishToFinish => Side::Right,
            DependencyKind::StartToStart | DependencyKind::StartToFinish => Side::Left,
        }
    }

    /// The side of the successor's bar that a link enters.
    pub fn enter_side(&self) -> (r: Side)
        ensures
            r == enter_side_spec(*self),
    {
        match self {
            DependencyKind::FinishToStart | DependencyKind::StartToStart => Side::Left,
            DependencyKind::FinishToFinish | DependencyKind::StartToFinish => Side::Right,
        }
    }

    /// Two-letter abbreviation of the kind.
    pub fn short_label(&self) -> (r: &'static str)
        ensures
            r@ == short_label_spec(*self),
    {
        proof {
            reveal_strlit("FS");
            reveal_strlit("SS");
            reveal_strlit("FF");
            reveal_strlit("SF");
        }
        match self {
            DependencyKind::FinishToStart => "FS",
            DependencyKind::StartToStart => "SS",
            DependencyKind::FinishToFinish => "FF",
            DependencyKind::StartToFinish => "SF",
        }
    }
}

/// A dependency link between two tasks, identified by their ids.
#[derive(Debug, Clone, Copy, PartialEq, Eq, Structural)]
pub struct Dependency {
    pub from_task: u128,
    pub to_task: u128,
    pub kind: DependencyKind,
}

/// How urgent a task is.
#[derive(Debug, Clone, Copy, PartialEq, Eq, Structural)]
pub enum TaskPriority {
    Unset,
    Low,
    Medium,
    High,
    Critical,
}

/// An RGBA display color.
#[derive(Debug, Clone, Copy, PartialEq, Eq, Structural)]
pub struct TaskColor {
    pub r: u8,
    pub g: u8,
    pub b: u8,
    pub a: u8,
}

pub open spec fn rgb(r: u8, g: u8, b: u8) -> TaskColor {
    TaskColor { r, g, b, a: 255 }
}

/// The color of a new plain task.
pub open spec fn task_default_color() -> TaskColor {
    rgb(70, 130, 180)
}

/// The color of a new milestone.
pub open spec fn milestone_default_color() -> TaskColor {
    rgb(255, 165, 0)
}

/// The palette color for index `index`, wrapping around; the default task
/// color when the palette is empty.
pub open spec fn task_color_spec(palette: Seq<TaskColor>, index: int) -> TaskColor {
    if palette.len() == 0 {
        task_default_color()
    } else {
        palette[index % palette.len() as int]
    }
}

/// Picks a color from `palette` by index, wrapping around; the default task
/// color when the palette is empty.
pub fn task_color(palette: &Vec<TaskColor>, index: usize) -> (r: TaskColor)
    ensures
        r == task_color_spec(palette@, index as int),
{
    if palette.len() == 0 {
        TaskColor { r: 70, g: 130, b: 180, a: 255 }
    } else {
        palette[index % palette.len()]
    }
}

/// A single task or milestone. Dates are day numbers, `end` inclusive of the
/// bar's right edge.
#[derive(Debug)]
pub struct Task {
    pub id: u128,
    pub name: String,
    pub start: i32,
    pub end: i32,
    /// Progress in thousandths, from 0 to `PROGRESS_FULL`.
    pub progress: u32,
    pub priority: TaskPriority,
    pub description: String,
    pub color: TaskColor,
    /// A milestone has no duration: `start == end`.
    pub is_milestone: bool,
    /// The summary task this one belongs to, if any.
    pub parent_id: Option<u128>,
    /// Set when the chart folds the children into their summary row.
    pub collapsed: bool,
}

/// Relies on uuid::Uuid::new_v4: a random version-4 id, whose version bits
/// make it differ from the nil id.
#[verifier::external_body]
pub(crate) fn fresh_task_id() -> (r: u128)
    ensures
        r != 0,
{
    uuid::Uuid::new_v4().as_u128()
}

impl Task {
    /// The task's own invariant: ordered dates, bounded progress, milestones
    /// of zero length, and no task its own parent.
    pub open spec fn wf(&self) -> bool {
        &&& self.start <= self.end
        &&& self.progress <= PROGRESS_FULL
        &&& (self.is_milestone ==> self.start == self.end)
        &&& self.parent_id != Some(self.id)
    }

    /// Length of the task in days.
    pub open spec fn duration_spec(&self) -> int {
        self.end - self.start
    }

    /// A new plain task with id `id`; an `end` before `start` is raised to `start`.
    pub fn new_with_id(id: u128, name: String, start: i32, end: i32) -> (r: Task)
        ensures
            r.wf(),
            r.id == id,
            r.name == name,
            r.start == start,
            r.end == if end < start { start } else { end },
            r.progress == 0,
            r.priority == TaskPriority::Unset,
            r.description@ == Seq::<char>::empty(),
            r.color == task_default_color(),
            !r.is_milestone,
            r.parent_id is None,
            !r.collapsed,
    {
        Task {
            id,
            name,
            start,
            end: if end < start { start } else { end },
            progress: 0,
            priority: TaskPriority::Unset,
            description: String::new(),
            color: TaskColor { r: 70, g: 130, b: 180, a: 255 },
            is_milestone: false,
            parent_id: None,
            collapsed: false,
        }
    }

    /// A new plain task with a fresh id; an `end` before `start` is raised to `start`.
    pub fn new(name: String, start: i32, end: i32) -> (r: Task)
        ensures
            r.wf(),
            r.id != 0,
            r.name == name,
            r.start == start,
            r.end == if end < start { start } else { end },
            r.progress == 0,
            r.priority == TaskPriority::Unset,
            r.description@ == Seq::<char>::empty(),
            r.color == task_default_color(),
            !r.is_milestone,
            r.parent_id is None,
            !r.collapsed,
    {
        Task::new_with_id(fresh_task_id(), name, start, end)
    }

    /// A new milestone on `date` with id `id`.
    pub fn new_milestone_with_id(id: u128, name: String, date: i32) -> (r: Task)
        ensures
            r.wf(),
            r.id == id,
            r.name == name,
            r.start == date,
            r.end == date,
            r.progress == 0,
            r.priority == TaskPriority::Unset,
            r.description@ == Seq::<char>::empty(),
            r.color == milestone_default_color(),
            r.is_milestone,
            r.parent_id is None,
            !r.collapsed,
    {
        Task {
            id,
            name,
            start: date,
            end: date,
            progress: 0,
            priority: TaskPriority::Unset,
            description: String::new(),
            color: TaskColor { r: 255, g: 165, b: 0, a: 255 },
            is_milestone: true,
            parent_id: None,
            collapsed: false,
        }
    }

    /// A new milestone on `date` with a fresh id.
    pub fn new_milestone(name: String, date: i32) -> (r: Task)
        ensures
            r.wf(),
            r.id != 0,
            r.name == name,
            r.start == date,
            r.end == date,
            r.progress == 0,
            r.priority == TaskPriority::Unset,
            r.description@ == Seq::<char>::empty(),
            r.color == milestone_default_color(),
            r.is_milestone,
            r.parent_id is None,
            !r.collapsed,
    {
        Task::new_milestone_with_id(fresh_task_id(), name, date)
    }

    /// An exact copy of the task.
    pub fn duplicate(&self) -> (r: Task)
        ensures
            r == *self,
    {
        Task {
            id: self.id,
            name: self.name.clone(),
            start: self.start,
            end: self.end,
            progress: self.progress,
            priority: self.priority,
            description: self.description.clone(),
            color: self.color,
            is_milestone: self.is_milestone,
            parent_id: self.parent_id,
            collapsed: self.collapsed,
        }
    }

    /// Length of the task in days.
    pub fn duration_days(&self) -> (r: i64)
        ensures
            r == self.duration_spec(),
    {
        self.end as i64 - self.start as i64
    }

    /// Turns the milestone flag on or off. Turning it on collapses the task
    /// onto its start date.
    pub fn set_milestone(&mut self, on: bool)
        requires
            old(self).wf(),
        ensures
            final(self).wf(),
            final(self).is_milestone == on,
            final(self).start == old(self).start,
            on ==> final(self).end == final(self).start,
            !on ==> final(self).end == old(self).end,
            *final(self) == (Task { is_milestone: on, end: final(self).end, ..*old(self) }),
            final(self).id == old(self).id,
            final(self).parent_id == old(self).parent_id,
            final(self).progress == old(self).progress,
    {
        self.is_milestone = on;
        if on {
            self.end = self.start;
        }
    }

    /// Edits the start date. A milestone moves as a whole; a start after the
    /// end pushes the end forward to it.
    pub fn set_start(&mut self, date: i32)
        requires
            old(self).wf(),
        ensures
            final(self).wf(),
            old(self).is_milestone ==> final(self).start == date && final(self).end == date,
            !old(self).is_milestone ==> final(self).start == date && final(self).end == (if date > old(
                self,
            ).end {
                date
            } else {
                old(self).end
            }),
            final(self).is_milestone == old(self).is_milestone,
            final(self).id == old(self).id,
            final(self).parent_id == old(self).parent_id,
            final(self).progress == old(self).progress,
    {
        if self.is_milestone {
            self.start = date;
            self.end = date;
        } else {
            self.start = date;
            if date > self.end {
                self.end = date;
            }
        }
    }

    /// Edits the end date. A milestone moves as a whole; an end before the
    /// start pulls the start back to it.
    pub fn set_end(&mut self, date: i32)
        requires
            old(self).wf(),
        ensures
            final(self).wf(),
            old(self).is_milestone ==> final(self).start == date && final(self).end == date,
            !old(self).is_milestone ==> final(self).end == date && final(self).start == (if date < old(
                self,
            ).start {
                date
            } else {
                old(self).start
            }),
            final(self).is_milestone == old(self).is_milestone,
            final(self).id == old(self).id,
            final(self).parent_id == old(self).parent_id,
            final(self).progress == old(self).progress,
    {
        if self.is_milestone {
            self.start = date;
            self.end = date;
        } else {
            self.end = date;
            if date < self.start {
                self.start = date;
            }
        }
    }

    /// Sets the progress, capped at complete.
    pub fn set_progress(&mut self, progress: u32)
        requires
            old(self).wf(),
        ensures
            final(self).wf(),
            final(self).progress == if progress > PROGRESS_FULL { PROGRESS_FULL } else { progress },
            final(self).start == old(self).start,
            final(self).end == old(self).end,
            final(self).id == old(self).id,
            final(self).parent_id == old(self).parent_id,
            final(self).is_milestone == old(self).is_milestone,
    {
        if progress > PROGRESS_FULL {
            self.progress = PROGRESS_FULL;
        } else {
            self.progress = progress;
        }
    }
}

} // verus!
