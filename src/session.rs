use vstd::prelude::*;

use crate::drag::linked;
use crate::history::{
    bounded_push, push_spec, redo_spec, undo_spec, SnapView, UndoHistory,
};
use crate::project::{
    add_dependency_spec, hierarchy_ok, ids_unique, pairs_unique, tasks_wf, Project,
};
use crate::grouping::{grouped, sorted_grouped};
use crate::rollup::rollup_spec;
use crate::task::{Dependency, Task, TaskColor};
use crate::timeline::TimelineViewport;

verus! {

/// A snapshot that can be installed as the project's state.
pub open spec fn snap_ok(s: SnapView) -> bool {
    &&& tasks_wf(s.0)
    &&& ids_unique(s.0)
    &&& hierarchy_ok(s.0)
    &&& pairs_unique(s.1)
}

pub open spec fn all_snaps_ok(stack: Seq<SnapView>) -> bool {
    forall|k: int| 0 <= k < stack.len() ==> snap_ok(#[trigger] stack[k])
}

proof fn lemma_bounded_push_ok(stack: Seq<SnapView>, s: SnapView, max: nat)
    requires
        all_snaps_ok(stack),
        snap_ok(s),
    ensures
        all_snaps_ok(bounded_push(stack, s, max)),
{
    let p = stack.push(s);
    assert forall|k: int| 0 <= k < p.len() implies snap_ok(#[trigger] p[k]) by {
        if k < stack.len() {
            assert(p[k] == stack[k]);
        }
    }
    if p.len() > max {
        let q = p.subrange(1, p.len() as int);
        assert forall|k: int| 0 <= k < q.len() implies snap_ok(#[trigger] q[k]) by {
            assert(q[k] == p[k + 1]);
        }
    }
}

/// The fields that a newly created task carries, apart from its fresh id.
pub open spec fn created_as(t: Task, name: Seq<char>, start: int, end: int, is_milestone: bool, color: TaskColor) -> bool {
    &&& t.wf()
    &&& t.name@ == name
    &&& t.start == start
    &&& t.end == end
    &&& t.is_milestone == is_milestone
    &&& t.color == color
    &&& t.progress == 0
    &&& !t.collapsed
}

/// Position of the task with id `parent` (ids are unique).
pub open spec fn parent_index(ts: Seq<Task>, parent: u128) -> int {
    choose|k: int| 0 <= k < ts.len() && ts[k].id == parent
}

/// Start of a new child of `parent`: the later of the parent's start and `today`.
pub open spec fn subtask_start(ts: Seq<Task>, parent: u128, today: int) -> int {
    let p = ts[parent_index(ts, parent)];
    if p.start > today { p.start as int } else { today }
}

/// End of a new child of `parent`: the later of the parent's end and a week
/// after the child's start (kept within the day range).
pub open spec fn subtask_end(ts: Seq<Task>, parent: u128, today: int) -> int {
    let p = ts[parent_index(ts, parent)];
    let s = subtask_start(ts, parent, today);
    let week = if s > i32::MAX - 7 { i32::MAX as int } else { s + 7 };
    if p.end > week { p.end as int } else { week }
}

/// Where a new child of `parent` goes: right after the last task that is
/// the parent or one of its children.
pub open spec fn subtask_slot(ts: Seq<Task>, parent: u128) -> int {
    1 + choose|k: int| 0 <= k < ts.len() && #[trigger] in_family(ts[k], parent) && forall|m: int|
        k < m < ts.len() ==> !#[trigger] in_family(ts[m], parent)
}

/// Whether `t` is task `parent` or one of its children.
pub open spec fn in_family(t: Task, parent: u128) -> bool {
    t.id == parent || t.parent_id == Some(parent)
}

proof fn lemma_add_task_keeps_wf(ts: Seq<Task>, pos: int, t: Task)
    requires
        tasks_wf(ts),
        ids_unique(ts),
        hierarchy_ok(ts),
        0 <= pos <= ts.len(),
        t.wf(),
        forall|i: int| 0 <= i < ts.len() ==> (#[trigger] ts[i]).id != t.id,
        match t.parent_id {
            Some(p) => crate::project::is_root_id(ts, p),
            None => true,
        },
    ensures
        tasks_wf(ts.insert(pos, t)),
        ids_unique(ts.insert(pos, t)),
        hierarchy_ok(ts.insert(pos, t)),
{
    let n = ts.insert(pos, t);
    assert forall|k: int| 0 <= k < n.len() implies (#[trigger] n[k]) == if k < pos { ts[k] } else if k == pos { t } else { ts[k - 1] } by {}
    assert forall|k: int| 0 <= k < n.len() implies (#[trigger] n[k]).wf() by {
        if k < pos { assert(n[k] == ts[k]); } else if k > pos { assert(n[k] == ts[k - 1]); }
    }
    assert forall|a: int, b: int| 0 <= a < n.len() && 0 <= b < n.len() && a != b implies #[trigger] n[a].id != #[trigger] n[b].id by {
        let ia = if a < pos { a } else { a - 1 };
        let ib = if b < pos { b } else { b - 1 };
        if a != pos && b != pos {
            assert(n[a] == ts[ia] && n[b] == ts[ib]);
        } else if a == pos {
            assert(n[b] == ts[ib]);
        } else {
            assert(n[a] == ts[ia]);
        }
    }
    assert forall|a: int| 0 <= a < n.len() implies match (#[trigger] n[a]).parent_id {
        Some(p) => crate::project::is_root_id(n, p),
        None => true,
    } by {
        let src = if a == pos { t } else if a < pos { ts[a] } else { ts[a - 1] };
        assert(n[a] == src);
        if let Some(p) = src.parent_id {
            if a != pos {
                let ia = if a < pos { a } else { a - 1 };
                assert(ts[ia] == src);
            }
            assert(crate::project::is_root_id(ts, p));
            let k = choose|k: int| 0 <= k < ts.len() && #[trigger] ts[k].id == p && ts[k].parent_id is None;
            let nk = if k < pos { k } else { k + 1 };
            assert(n[nk] == ts[k]);
        }
    }
}

/// The position that item `k` of `moved(s, from, to)` came from.
pub open spec fn moved_source(from: int, to: int, k: int) -> int {
    if from < to {
        if k < from || k > to { k } else if k == to { from } else { k + 1 }
    } else {
        if k < to || k > from { k } else if k == to { from } else { k - 1 }
    }
}

proof fn lemma_moved_keeps_wf(ts: Seq<Task>, from: int, to: int)
    requires
        tasks_wf(ts),
        ids_unique(ts),
        hierarchy_ok(ts),
        0 <= from < ts.len(),
        0 <= to < ts.len(),
    ensures
        tasks_wf(crate::drag::moved(ts, from, to)),
        ids_unique(crate::drag::moved(ts, from, to)),
        hierarchy_ok(crate::drag::moved(ts, from, to)),
        crate::drag::moved(ts, from, to).len() == ts.len(),
{
    let n = crate::drag::moved(ts, from, to);
    assert forall|k: int| 0 <= k < n.len() implies #[trigger] n[k] == ts[moved_source(from, to, k)] by {}
    assert forall|k: int| 0 <= k < n.len() implies (#[trigger] n[k]).wf() by {
        assert(n[k] == ts[moved_source(from, to, k)]);
    }
    assert forall|a: int, b: int| 0 <= a < n.len() && 0 <= b < n.len() && a != b implies #[trigger] n[a].id != #[trigger] n[b].id by {
        assert(n[a] == ts[moved_source(from, to, a)]);
        assert(n[b] == ts[moved_source(from, to, b)]);
    }
    assert forall|a: int| 0 <= a < n.len() implies match (#[trigger] n[a]).parent_id {
        Some(p) => crate::project::is_root_id(n, p),
        None => true,
    } by {
        assert(n[a] == ts[moved_source(from, to, a)]);
        if let Some(p) = n[a].parent_id {
            let k = choose|k: int| 0 <= k < ts.len() && #[trigger] ts[k].id == p && ts[k].parent_id is None;
            let nk = if from < to {
                if k < from || k > to { k } else if k == from { to } else { k - 1 }
            } else {
                if k < to || k > from { k } else if k == from { to } else { k + 1 }
            };
            assert(moved_source(from, to, nk) == k);
            assert(n[nk] == ts[k]);
        }
    }
}

/// The editing session: the project, the visible range, the selection and
/// the undo history. The current state is recorded before every change.
#[derive(Debug)]
pub struct GanttApp {
    pub project: Project,
    pub viewport: TimelineViewport,
    pub selected_task: Option<u128>,
    pub undo_history: UndoHistory,
}

impl GanttApp {
    pub open spec fn wf(&self) -> bool {
        &&& self.project.wf()
        &&& self.viewport.wf()
        &&& self.undo_history.wf()
        &&& all_snaps_ok(self.undo_history.undo_view())
        &&& all_snaps_ok(self.undo_history.redo_view())
    }

    pub open spec fn state(&self) -> SnapView {
        (self.project.tasks@, self.project.dependencies@)
    }

    /// A session on `project` with an empty history and nothing selected.
    pub fn new(project: Project, viewport: TimelineViewport) -> (r: GanttApp)
        requires
            project.wf(),
            viewport.wf(),
        ensures
            r.wf(),
            r.project == project,
            r.viewport == viewport,
            r.selected_task is None,
            r.undo_history.undo_view().len() == 0,
            r.undo_history.redo_view().len() == 0,
    {
        GanttApp { project, viewport, selected_task: None, undo_history: UndoHistory::new() }
    }

    /// Records the current state on the undo stack before a change.
    pub fn record(&mut self)
        requires
            old(self).wf(),
        ensures
            final(self).wf(),
            final(self).project == old(self).project,
            final(self).viewport == old(self).viewport,
            final(self).selected_task == old(self).selected_task,
            final(self).undo_history.max_depth == old(self).undo_history.max_depth,
            (final(self).undo_history.undo_view(), final(self).undo_history.redo_view()) == push_spec(
                old(self).undo_history.undo_view(),
                old(self).undo_history.redo_view(),
                old(self).state(),
                old(self).undo_history.max_depth as nat,
            ),
    {
        proof {
            lemma_bounded_push_ok(self.undo_history.undo_view(), self.state(), self.undo_history.max_depth as nat);
        }
        self.undo_history.push(&self.project.tasks, &self.project.dependencies);
    }

    /// The start of a drag on task `id`: records the state before any of
    /// the gesture's edits and selects the task.
    pub fn begin_gesture(&mut self, id: u128)
        requires
            old(self).wf(),
        ensures
            final(self).wf(),
            final(self).project == old(self).project,
            final(self).selected_task == Some(id),
            (final(self).undo_history.undo_view(), final(self).undo_history.redo_view()) == push_spec(
                old(self).undo_history.undo_view(),
                old(self).undo_history.redo_view(),
                old(self).state(),
                old(self).undo_history.max_depth as nat,
            ),
    {
        self.record();
        self.selected_task = Some(id);
    }

    /// Replaces the project with an empty one and forgets the history.
    pub fn new_project(&mut self)
        requires
            old(self).wf(),
        ensures
            final(self).wf(),
            final(self).project.name@ == "Untitled Project"@,
            final(self).project.tasks@.len() == 0,
            final(self).project.dependencies@.len() == 0,
            final(self).selected_task is None,
            final(self).undo_history.undo_view().len() == 0,
            final(self).undo_history.redo_view().len() == 0,
            final(self).viewport == old(self).viewport,
    {
        self.project = Project::default();
        self.selected_task = None;
        self.undo_history.clear();
    }

    /// Steps back to the last recorded state, with summary tasks rolled up,
    /// and clears the selection. Returns whether there was a state to go back to.
    pub fn undo(&mut self) -> (r: bool)
        requires
            old(self).wf(),
        ensures
            final(self).wf(),
            final(self).viewport == old(self).viewport,
            ({
                let (u, d, got) = undo_spec(
                    old(self).undo_history.undo_view(),
                    old(self).undo_history.redo_view(),
                    old(self).state(),
                    old(self).undo_history.max_depth as nat,
                );
                &&& final(self).undo_history.undo_view() == u
                &&& final(self).undo_history.redo_view() == d
                &&& match got {
                    None => !r && final(self).project == old(self).project && final(self).selected_task
                        == old(self).selected_task,
                    Some(s) => r && final(self).project.tasks@ == rollup_spec(s.0)
                        && final(self).project.dependencies@ == s.1 && final(self).selected_task is None,
                }
            }),
    {
        let ghost undo_before = self.undo_history.undo_view();
        proof {
            lemma_bounded_push_ok(self.undo_history.redo_view(), self.state(), self.undo_history.max_depth as nat);
        }
        match self.undo_history.undo(&self.project.tasks, &self.project.dependencies) {
            None => false,
            Some(snap) => {
                proof {
                    assert(undo_before.len() > 0);
                    assert(snap_ok(undo_before[undo_before.len() - 1]));
                    assert(self.undo_history.undo_view() =~= undo_before.drop_last());
                    assert forall|k: int| 0 <= k < self.undo_history.undo_view().len() implies snap_ok(
                        #[trigger] self.undo_history.undo_view()[k],
                    ) by {
                        assert(self.undo_history.undo_view()[k] == undo_before[k]);
                    }
                }
                self.install(snap.tasks, snap.dependencies);
                true
            },
        }
    }

    /// Steps forward to the last undone state, with summary tasks rolled up,
    /// and clears the selection. Returns whether there was a state to go to.
    pub fn redo(&mut self) -> (r: bool)
        requires
            old(self).wf(),
        ensures
            final(self).wf(),
            final(self).viewport == old(self).viewport,
            ({
                let (u, d, got) = redo_spec(
                    old(self).undo_history.undo_view(),
                    old(self).undo_history.redo_view(),
                    old(self).state(),
                    old(self).undo_history.max_depth as nat,
                );
                &&& final(self).undo_history.undo_view() == u
                &&& final(self).undo_history.redo_view() == d
                &&& match got {
                    None => !r && final(self).project == old(self).project && final(self).selected_task
                        == old(self).selected_task,
                    Some(s) => r && final(self).project.tasks@ == rollup_spec(s.0)
                        && final(self).project.dependencies@ == s.1 && final(self).selected_task is None,
                }
            }),
    {
        let ghost redo_before = self.undo_history.redo_view();
        proof {
            lemma_bounded_push_ok(self.undo_history.undo_view(), self.state(), self.undo_history.max_depth as nat);
        }
        match self.undo_history.redo(&self.project.tasks, &self.project.dependencies) {
            None => false,
            Some(snap) => {
                proof {
                    assert(redo_before.len() > 0);
                    assert(snap_ok(redo_before[redo_before.len() - 1]));
                    assert(self.undo_history.redo_view() =~= redo_before.drop_last());
                    assert forall|k: int| 0 <= k < self.undo_history.redo_view().len() implies snap_ok(
                        #[trigger] self.undo_history.redo_view()[k],
                    ) by {
                        assert(self.undo_history.redo_view()[k] == redo_before[k]);
                    }
                }
                self.install(snap.tasks, snap.dependencies);
                true
            },
        }
    }

    #[verifier::rlimit(40)]
    fn install(&mut self, tasks: Vec<Task>, dependencies: Vec<Dependency>)
        requires
            snap_ok((tasks@, dependencies@)),
            old(self).viewport.wf(),
            old(self).undo_history.wf(),
            all_snaps_ok(old(self).undo_history.undo_view()),
            all_snaps_ok(old(self).undo_history.redo_view()),
        ensures
            final(self).wf(),
            final(self).project.tasks@ == rollup_spec(tasks@),
            final(self).project.dependencies@ == dependencies@,
            final(self).selected_task is None,
            final(self).viewport == old(self).viewport,
            final(self).undo_history == old(self).undo_history,
    {
        self.project.tasks = tasks;
        self.project.dependencies = dependencies;
        self.project.recalculate_parent_dates();
        self.project.touch();
        self.selected_task = None;
    }

    /// Links two tasks, recording the state first; nothing happens, and
    /// nothing is recorded, when that ordered pair is already linked.
    /// Returns whether the link was added.
    pub fn add_dependency(&mut self, dep: Dependency) -> (r: bool)
        requires
            old(self).wf(),
        ensures
            final(self).wf(),
            r == !linked(old(self).project.dependencies@, dep.from_task, dep.to_task),
            final(self).project.dependencies@ == add_dependency_spec(old(self).project.dependencies@, dep),
            final(self).project.tasks == old(self).project.tasks,
            r ==> (final(self).undo_history.undo_view(), final(self).undo_history.redo_view()) == push_spec(
                old(self).undo_history.undo_view(),
                old(self).undo_history.redo_view(),
                old(self).state(),
                old(self).undo_history.max_depth as nat,
            ),
            !r ==> final(self).undo_history == old(self).undo_history,
    {
        if crate::drag::has_link(&self.project.dependencies, dep.from_task, dep.to_task) {
            return false;
        }
        self.record();
        self.project.add_dependency(dep);
        self.project.touch();
        true
    }

    /// Removes the link from `from` to `to`, recording the state first.
    pub fn remove_dependency(&mut self, from: u128, to: u128)
        requires
            old(self).wf(),
        ensures
            final(self).wf(),
            final(self).project.dependencies@ == old(self).project.dependencies@.filter(
                crate::project::unlinks(from, to),
            ),
            final(self).project.tasks == old(self).project.tasks,
            (final(self).undo_history.undo_view(), final(self).undo_history.redo_view()) == push_spec(
                old(self).undo_history.undo_view(),
                old(self).undo_history.redo_view(),
                old(self).state(),
                old(self).undo_history.max_depth as nat,
            ),
    {
        self.record();
        self.project.remove_dependency(from, to);
        self.project.touch();
    }

    /// Deletes a task with its children and their links, recording the
    /// state first, then rolls up the remaining summary tasks. Clears the
    /// selection when it pointed at a deleted task.
    pub fn delete_task(&mut self, id: u128)
        requires
            old(self).wf(),
        ensures
            final(self).wf(),
            final(self).project.tasks@ == rollup_spec(
                old(self).project.tasks@.filter(crate::project::survives(id)),
            ),
            final(self).project.dependencies@ == old(self).project.dependencies@.filter(
                crate::project::dep_survives(old(self).project.tasks@, id),
            ),
            (final(self).undo_history.undo_view(), final(self).undo_history.redo_view()) == push_spec(
                old(self).undo_history.undo_view(),
                old(self).undo_history.redo_view(),
                old(self).state(),
                old(self).undo_history.max_depth as nat,
            ),
            final(self).selected_task == match old(self).selected_task {
                Some(s) => if crate::project::deleted_id(old(self).project.tasks@, id, s) {
                    None
                } else {
                    Some(s)
                },
                None => None,
            },
    {
        let selected_goes = match self.selected_task {
            Some(s) => s == id || self.is_child_id(id, s),
            None => false,
        };
        self.record();
        self.project.delete_task(id);
        self.project.recalculate_parent_dates();
        if selected_goes {
            self.selected_task = None;
        }
    }

    fn is_child_id(&self, id: u128, x: u128) -> (r: bool)
        ensures
            r == crate::project::is_child_id(self.project.tasks@, id, x),
    {
        let mut i: usize = 0;
        while i < self.project.tasks.len()
            invariant
                i <= self.project.tasks@.len(),
                forall|k: int| 0 <= k < i ==> !(#[trigger] self.project.tasks@[k].id == x && self.project.tasks@[k].parent_id == Some(id)),
            decreases self.project.tasks@.len() - i,
        {
            if self.project.tasks[i].id == x && self.project.tasks[i].parent_id == Some(id) {
                return true;
            }
            i += 1;
        }
        false
    }

    /// Shows or hides the children of a task. Returns whether the task exists.
    pub fn toggle_collapse(&mut self, id: u128) -> (r: bool)
        requires
            old(self).wf(),
        ensures
            final(self).wf(),
            final(self).undo_history == old(self).undo_history,
            final(self).project.dependencies == old(self).project.dependencies,
            final(self).project.tasks@.len() == old(self).project.tasks@.len(),
            r == exists|i: int| 0 <= i < old(self).project.tasks@.len() && #[trigger] old(self).project.tasks@[i].id == id,
            forall|i: int| 0 <= i < old(self).project.tasks@.len() ==> #[trigger] final(self).project.tasks@[i] == if old(
                self,
            ).project.tasks@[i].id == id {
                Task { collapsed: !old(self).project.tasks@[i].collapsed, ..old(self).project.tasks@[i] }
            } else {
                old(self).project.tasks@[i]
            },
    {
        match self.project.find_task(id) {
            None => false,
            Some(i) => {
                let ghost ts = self.project.tasks@;
                let mut t = self.project.tasks[i].duplicate();
                t.collapsed = !t.collapsed;
                self.project.tasks.set(i, t);
                proof {
                    let n = self.project.tasks@;
                    assert forall|k: int| 0 <= k < n.len() implies #[trigger] n[k] == if ts[k].id == id {
                        Task { collapsed: !ts[k].collapsed, ..ts[k] }
                    } else {
                        ts[k]
                    } by {
                        if k != i {
                            assert(ts[k].id != ts[i as int].id);
                        }
                    }
                    assert forall|a: int| 0 <= a < n.len() implies (#[trigger] n[a]).wf() by {
                        assert(ts[a].wf());
                    }
                    assert forall|a: int, b: int| 0 <= a < n.len() && 0 <= b < n.len() && a != b implies #[trigger] n[a].id
                        != #[trigger] n[b].id by {
                        assert(ts[a].id != ts[b].id);
                    }
                    assert forall|a: int| 0 <= a < n.len() implies match (#[trigger] n[a]).parent_id {
                        Some(p) => crate::project::is_root_id(n, p),
                        None => true,
                    } by {
                        assert(n[a].parent_id == ts[a].parent_id);
                        if let Some(p) = ts[a].parent_id {
                            let k = choose|k: int| 0 <= k < ts.len() && #[trigger] ts[k].id == p && ts[k].parent_id is None;
                            assert(n[k].id == ts[k].id && n[k].parent_id == ts[k].parent_id);
                        }
                    }
                }
                self.project.touch();
                true
            },
        }
    }

    fn id_in_use(&self, id: u128) -> (r: bool)
        ensures
            r == exists|i: int| 0 <= i < self.project.tasks@.len() && #[trigger] self.project.tasks@[i].id == id,
    {
        match self.project.find_task(id) {
            Some(_) => true,
            None => false,
        }
    }

    /// Creates a task or milestone with id `id`, recording the state first,
    /// and puts the tasks back in grouped order. An empty name becomes "New
    /// Task"; an end before the start becomes a week after it; a plain task
    /// takes the palette color at the current task count. Refused, with
    /// nothing changed, when `id` is already in use. Returns whether the task
    /// was added.
    #[verifier::rlimit(40)]
    pub fn create_task_with_id(
        &mut self,
        id: u128,
        name: String,
        start: i32,
        end: i32,
        is_milestone: bool,
        palette: &Vec<TaskColor>,
    ) -> (r: bool)
        requires
            old(self).wf(),
        ensures
            final(self).wf(),
            r == !exists|i: int| 0 <= i < old(self).project.tasks@.len() && #[trigger] old(self).project.tasks@[i].id == id,
            !r ==> final(self).project == old(self).project && final(self).undo_history == old(self).undo_history,
            r ==> exists|t: Task| {
                &&& #[trigger] t.id == id
                &&& t.parent_id is None
                &&& t.priority == crate::task::TaskPriority::Unset
                &&& t.description@.len() == 0
                &&& created_as(
                    t,
                    if name@.len() == 0 { "New Task"@ } else { name@ },
                    start as int,
                    if is_milestone { start as int } else if end >= start { end as int } else { crate::timeline::clamp_day(start + 7) },
                    is_milestone,
                    if is_milestone { crate::task::milestone_default_color() } else { crate::task::task_color_spec(palette@, old(self).project.tasks@.len() as int) },
                )
                &&& final(self).project.tasks@ == sorted_grouped(old(self).project.tasks@.push(t))
            },
            r ==> final(self).project.tasks@.len() == old(self).project.tasks@.len() + 1,
            r ==> grouped(final(self).project.tasks@),
            r ==> (final(self).undo_history.undo_view(), final(self).undo_history.redo_view()) == push_spec(
                old(self).undo_history.undo_view(),
                old(self).undo_history.redo_view(),
                old(self).state(),
                old(self).undo_history.max_depth as nat,
            ),
            final(self).project.dependencies == old(self).project.dependencies,
    {
        if self.id_in_use(id) {
            return false;
        }
        proof {
            reveal_strlit("New Task");
        }
        let name = if name.as_str().is_empty() { "New Task".to_owned() } else { name };
        let task = if is_milestone {
            Task::new_milestone_with_id(id, name, start)
        } else {
            let end = if end >= start {
                end
            } else if start > i32::MAX - 7 {
                i32::MAX
            } else {
                start + 7
            };
            let mut t = Task::new_with_id(id, name, start, end);
            t.color = crate::task::task_color(palette, self.project.tasks.len());
            t
        };
        let ghost made = task;
        self.record();
        let ghost before = self.project.tasks@;
        self.project.tasks.push(task);
        proof {
            assert(before.insert(before.len() as int, task) =~= before.push(task));
            lemma_add_task_keeps_wf(before, before.len() as int, task);
            assert(self.project.tasks@ =~= before.push(task));
        }
        self.project.sort_tasks_grouped();
        proof {
            assert(made.id == id && self.project.tasks@ == sorted_grouped(before.push(made)));
        }
        true
    }

    /// Creates a task or milestone with a fresh id, as `create_task_with_id`
    /// describes. Returns the new id, or nothing, with nothing changed, in
    /// the unlikely case that the drawn id is already taken; on a project
    /// without tasks it always succeeds.
    pub fn create_task(&mut self, name: String, start: i32, end: i32, is_milestone: bool, palette: &Vec<TaskColor>) -> (r: Option<u128>)
        requires
            old(self).wf(),
        ensures
            final(self).wf(),
            old(self).project.tasks@.len() == 0 ==> r is Some,
            r is None ==> final(self).project == old(self).project && final(self).undo_history == old(self).undo_history,
            r matches Some(id) ==> exists|t: Task| {
                &&& #[trigger] t.id == id
                &&& t.parent_id is None
                &&& created_as(
                    t,
                    if name@.len() == 0 { "New Task"@ } else { name@ },
                    start as int,
                    if is_milestone { start as int } else if end >= start { end as int } else { crate::timeline::clamp_day(start + 7) },
                    is_milestone,
                    if is_milestone { crate::task::milestone_default_color() } else { crate::task::task_color_spec(palette@, old(self).project.tasks@.len() as int) },
                )
                &&& final(self).project.tasks@ == sorted_grouped(old(self).project.tasks@.push(t))
            },
            r is Some ==> final(self).project.tasks@.len() == old(self).project.tasks@.len() + 1,
            r is Some ==> (final(self).undo_history.undo_view(), final(self).undo_history.redo_view()) == push_spec(
                old(self).undo_history.undo_view(),
                old(self).undo_history.redo_view(),
                old(self).state(),
                old(self).undo_history.max_depth as nat,
            ),
            final(self).project.dependencies == old(self).project.dependencies,
    {
        let id = crate::task::fresh_task_id();
        if self.create_task_with_id(id, name, start, end, is_milestone, palette) {
            Some(id)
        } else {
            None
        }
    }

    /// Adds a child with id `id` under top-level task `parent_id`,
    /// recording the state first. It starts on the later of the parent's
    /// start and `today`, ends on the later of the parent's end and a week
    /// after its start, takes the palette color at the current task count,
    /// sits right after the parent's last child, and becomes the selection;
    /// the summary tasks are then rolled up. Refused, with nothing changed,
    /// when the parent is missing or is itself a child, or `id` is in use.
    /// Returns whether the subtask was added.
    #[verifier::rlimit(40)]
    pub fn add_subtask_with_id(&mut self, parent_id: u128, id: u128, today: i32, palette: &Vec<TaskColor>) -> (r: bool)
        requires
            old(self).wf(),
        ensures
            final(self).wf(),
            r == (crate::project::is_root_id(old(self).project.tasks@, parent_id) && id != parent_id && !exists|i: int|
                0 <= i < old(self).project.tasks@.len() && #[trigger] old(self).project.tasks@[i].id == id),
            !r ==> final(self).project == old(self).project && final(self).undo_history == old(self).undo_history
                && final(self).selected_task == old(self).selected_task,
            r ==> final(self).selected_task == Some(id) && exists|t: Task| {
                &&& #[trigger] t.id == id
                &&& t.parent_id == Some(parent_id)
                &&& t.name@ == "New Subtask"@
                &&& t.start == subtask_start(old(self).project.tasks@, parent_id, today as int)
                &&& t.end == subtask_end(old(self).project.tasks@, parent_id, today as int)
                &&& t.color == crate::task::task_color_spec(palette@, old(self).project.tasks@.len() as int)
                &&& t.progress == 0 && !t.is_milestone && !t.collapsed
                &&& final(self).project.tasks@ == rollup_spec(
                    old(self).project.tasks@.insert(subtask_slot(old(self).project.tasks@, parent_id), t),
                )
            },
            r ==> final(self).project.tasks@.len() == old(self).project.tasks@.len() + 1,
            r ==> (final(self).undo_history.undo_view(), final(self).undo_history.redo_view()) == push_spec(
                old(self).undo_history.undo_view(),
                old(self).undo_history.redo_view(),
                old(self).state(),
                old(self).undo_history.max_depth as nat,
            ),
            final(self).project.dependencies == old(self).project.dependencies,
    {
        let ghost ts = self.project.tasks@;
        let pi = match self.project.find_task(parent_id) {
            Some(i) => i,
            None => {
                return false;
            },
        };
        if self.project.tasks[pi].parent_id.is_some() {
            proof {
                assert forall|m: int| 0 <= m < ts.len() && #[trigger] ts[m].id == parent_id implies ts[m].parent_id is Some by {
                    if m != pi {
                        assert(ts[m].id != ts[pi as int].id);
                    }
                }
            }
            return false;
        }
        proof {
            assert(crate::project::is_root_id(ts, parent_id)) by {
                assert(ts[pi as int].id == parent_id);
            }
            let k = parent_index(ts, parent_id);
            assert(ts[pi as int].id == parent_id);
            if k != pi {
                assert(ts[k].id != ts[pi as int].id);
            }
        }
        if self.id_in_use(id) || id == parent_id {
            return false;
        }
        let p_start = self.project.tasks[pi].start;
        let p_end = self.project.tasks[pi].end;
        let start = if p_start > today { p_start } else { today };
        let week_on = if start > i32::MAX - 7 { i32::MAX } else { start + 7 };
        let end = if p_end > week_on { p_end } else { week_on };
        proof {
            reveal_strlit("New Subtask");
        }
        let mut t = Task::new_with_id(id, "New Subtask".to_owned(), start, end);
        t.color = crate::task::task_color(palette, self.project.tasks.len());
        t.parent_id = Some(parent_id);
        let mut last: usize = pi;
        let mut k: usize = pi + 1;
        while k < self.project.tasks.len()
            invariant
                ts == self.project.tasks@,
                pi < ts.len(),
                pi <= last < k <= ts.len(),
                in_family(ts[last as int], parent_id),
                forall|m: int| last < m < k ==> !#[trigger] in_family(ts[m], parent_id),
            decreases ts.len() - k,
        {
            let hit = self.project.tasks[k].id == parent_id || self.project.tasks[k].parent_id == Some(parent_id);
            proof {
                assert(hit == in_family(ts[k as int], parent_id));
            }
            if hit {
                last = k;
            }
            k += 1;
        }
        proof {
            let c = choose|c: int| 0 <= c < ts.len() && #[trigger] in_family(ts[c], parent_id) && forall|m: int|
                c < m < ts.len() ==> !#[trigger] in_family(ts[m], parent_id);
            if c < last {
                assert(in_family(ts[last as int], parent_id));
            }
            if c > last {
                assert(!in_family(ts[c], parent_id));
            }
            assert(subtask_slot(ts, parent_id) == last + 1);
        }
        let ghost made = t;
        proof {
            assert(made.start == subtask_start(ts, parent_id, today as int));
            assert(made.end == subtask_end(ts, parent_id, today as int));
        }
        self.record();
        self.project.tasks.insert(last + 1, t);
        proof {
            lemma_add_task_keeps_wf(ts, last + 1, t);
        }
        self.selected_task = Some(id);
        self.project.recalculate_parent_dates();
        self.project.touch();
        proof {
            assert(made.id == id && made.parent_id == Some(parent_id));
            assert(self.project.tasks@ == rollup_spec(ts.insert(subtask_slot(ts, parent_id), made)));
        }
        true
    }

    /// Adds a child with a fresh id under top-level task `parent_id`, as
    /// `add_subtask_with_id` describes. Returns the new id, or nothing, with
    /// nothing changed, when the parent is missing or is itself a child, or
    /// in the unlikely case that the drawn id is already taken.
    pub fn add_subtask(&mut self, parent_id: u128, today: i32, palette: &Vec<TaskColor>) -> (r: Option<u128>)
        requires
            old(self).wf(),
        ensures
            final(self).wf(),
            !crate::project::is_root_id(old(self).project.tasks@, parent_id) ==> r is None,
            r is None ==> final(self).project == old(self).project && final(self).undo_history == old(self).undo_history
                && final(self).selected_task == old(self).selected_task,
            r matches Some(id) ==> crate::project::is_root_id(old(self).project.tasks@, parent_id) && final(self).selected_task
                == Some(id) && exists|t: Task| {
                &&& #[trigger] t.id == id
                &&& t.parent_id == Some(parent_id)
                &&& t.name@ == "New Subtask"@
                &&& t.start == subtask_start(old(self).project.tasks@, parent_id, today as int)
                &&& t.end == subtask_end(old(self).project.tasks@, parent_id, today as int)
                &&& final(self).project.tasks@ == rollup_spec(
                    old(self).project.tasks@.insert(subtask_slot(old(self).project.tasks@, parent_id), t),
                )
            },
            r is Some ==> final(self).project.tasks@.len() == old(self).project.tasks@.len() + 1,
            r is Some ==> (final(self).undo_history.undo_view(), final(self).undo_history.redo_view()) == push_spec(
                old(self).undo_history.undo_view(),
                old(self).undo_history.redo_view(),
                old(self).state(),
                old(self).undo_history.max_depth as nat,
            ),
            final(self).project.dependencies == old(self).project.dependencies,
    {
        let id = crate::task::fresh_task_id();
        if self.add_subtask_with_id(parent_id, id, today, palette) {
            Some(id)
        } else {
            None
        }
    }

    /// Sets the dates of the task at `index` as a horizontal drag commands:
    /// a milestone stays a single date (the new start), any other task gets
    /// `start` and `end` in order; summary tasks are then rolled up again.
    pub fn set_task_dates(&mut self, index: usize, start: i32, end: i32)
        requires
            old(self).wf(),
            index < old(self).project.tasks@.len(),
            start <= end,
        ensures
            final(self).wf(),
            final(self).undo_history == old(self).undo_history,
            final(self).project.dependencies == old(self).project.dependencies,
            final(self).project.tasks@ == rollup_spec(old(self).project.tasks@.update(
                index as int,
                if old(self).project.tasks@[index as int].is_milestone {
                    Task { start, end: start, ..old(self).project.tasks@[index as int] }
                } else {
                    Task { start, end, ..old(self).project.tasks@[index as int] }
                },
            )),
    {
        let ghost ts = self.project.tasks@;
        let mut t = self.project.tasks[index].duplicate();
        t.start = start;
        t.end = if t.is_milestone { start } else { end };
        self.project.tasks.set(index, t);
        proof {
            let n = self.project.tasks@;
            assert forall|a: int| 0 <= a < n.len() implies (#[trigger] n[a]).wf() by {
                assert(ts[a].wf());
            }
            assert forall|a: int, b: int| 0 <= a < n.len() && 0 <= b < n.len() && a != b implies #[trigger] n[a].id
                != #[trigger] n[b].id by {
                assert(ts[a].id != ts[b].id);
            }
            assert forall|a: int| 0 <= a < n.len() implies match (#[trigger] n[a]).parent_id {
                Some(p) => crate::project::is_root_id(n, p),
                None => true,
            } by {
                assert(n[a].parent_id == ts[a].parent_id);
                if let Some(p) = ts[a].parent_id {
                    let k = choose|k: int| 0 <= k < ts.len() && #[trigger] ts[k].id == p && ts[k].parent_id is None;
                    assert(n[k].id == ts[k].id && n[k].parent_id == ts[k].parent_id);
                }
            }
        }
        self.project.recalculate_parent_dates();
        self.project.touch();
    }

    /// Moves the task at `from` to position `to`, as a vertical drag
    /// commands; positions out of range change nothing.
    pub fn reorder_task(&mut self, from: usize, to: usize)
        requires
            old(self).wf(),
        ensures
            final(self).wf(),
            final(self).undo_history == old(self).undo_history,
            final(self).project.dependencies == old(self).project.dependencies,
            (from == to || from >= old(self).project.tasks@.len() || to >= old(self).project.tasks@.len())
                ==> final(self).project.tasks@ == old(self).project.tasks@,
            !(from == to || from >= old(self).project.tasks@.len() || to >= old(self).project.tasks@.len())
                ==> final(self).project.tasks@ == crate::drag::moved(old(self).project.tasks@, from as int, to as int),
    {
        let ghost ts = self.project.tasks@;
        if from == to || from >= self.project.tasks.len() || to >= self.project.tasks.len() {
            return;
        }
        crate::drag::move_task_by_swapping(&mut self.project.tasks, from, to);
        proof {
            lemma_moved_keeps_wf(ts, from as int, to as int);
        }
        self.project.touch();
    }
}

} // verus!
